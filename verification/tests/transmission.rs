use ws28xx::colors::Color;
use ws28xx::leds::bytes_as_bit_slice;
use ws28xx::leds::get_single_strip_buffer_max_length;
use ws28xx::leds::get_total_num_leds;
use ws28xx::leds::ColorOrder;
use ws28xx::leds::LogicalStrip;
use ws28xx::leds::PhysicalStrip;
use ws28xx::leds::WS2811_DELAY_LOOPS_BEFORE_SEND;
use ws28xx::leds::WS2812_TICK_NS;
use ws28xx::pins::PinAction;

fn strip(pin: u8, led_count: usize, reversed: bool, color_order: ColorOrder) -> PhysicalStrip {
    PhysicalStrip { pin, led_count, reversed, color_order }
}

/// Index of the first per-bit action in a strip's action sequence: one
/// StartTimer, one SetLow, then the reset pause's ticks.
fn first_bit_action(actions: &[PinAction]) -> usize {
    assert!(matches!(actions[0], PinAction::StartTimer { .. }));
    assert!(matches!(actions[1], PinAction::SetLow { .. }));
    let pause = WS2811_DELAY_LOOPS_BEFORE_SEND as usize;
    for k in 0..pause {
        assert_eq!(actions[2 + k], PinAction::WaitTick);
    }
    2 + pause
}

#[test]
fn send_bits_arms_timer_and_holds_reset_pause() {
    let s = strip(3, 1, false, ColorOrder::RGB);
    let actions = s.send_bits(&vec![true]);
    assert_eq!(actions[0], PinAction::StartTimer { period_ns: WS2812_TICK_NS });
    assert_eq!(actions[1], PinAction::SetLow { pin: 3 });
    let start = first_bit_action(&actions);
    assert_eq!(actions.len(), start + 5);
}

#[test]
fn each_bit_takes_three_ticks() {
    let s = strip(4, 1, false, ColorOrder::RGB);
    for b in [false, true] {
        let actions = s.send_bits(&vec![b]);
        let start = first_bit_action(&actions);
        let bit_part = actions[start..].to_vec();
        assert_eq!(bit_part.len(), 5);
        let ticks = bit_part.iter().filter(|a| matches!(a, PinAction::WaitTick)).count();
        assert_eq!(ticks, 3);
        if b {
            assert_eq!(
                bit_part,
                vec![
                    PinAction::SetHigh { pin: 4 },
                    PinAction::WaitTick,
                    PinAction::WaitTick,
                    PinAction::SetLow { pin: 4 },
                    PinAction::WaitTick,
                ]
            );
        } else {
            assert_eq!(
                bit_part,
                vec![
                    PinAction::SetHigh { pin: 4 },
                    PinAction::WaitTick,
                    PinAction::SetLow { pin: 4 },
                    PinAction::WaitTick,
                    PinAction::WaitTick,
                ]
            );
        }
    }
}

#[test]
fn frame_tick_total_is_pause_plus_three_per_bit() {
    let s = strip(0, 2, false, ColorOrder::RGB);
    let logical = LogicalStrip::new(vec![s]);
    let actions = logical.send_all_sequential();
    let ticks = actions.iter().filter(|a| matches!(a, PinAction::WaitTick)).count();
    // two LEDs give 48 bits; three ticks each, after the reset pause
    assert_eq!(ticks, WS2811_DELAY_LOOPS_BEFORE_SEND as usize + 3 * 48);
}

#[test]
fn helper_counts_over_three_strips() {
    let strips = vec![
        strip(0, 3, false, ColorOrder::GRB),
        strip(1, 4, false, ColorOrder::GRB),
        strip(2, 2, false, ColorOrder::GRB),
    ];
    assert_eq!(get_total_num_leds(&strips), 9);
    assert_eq!(get_single_strip_buffer_max_length(&strips), 12);
}

#[test]
fn new_logical_strip_is_all_off() {
    let s = strip(0, 2, false, ColorOrder::RGB);
    let fresh = LogicalStrip::new(vec![s]);
    let mut filled = LogicalStrip::new(vec![s]);
    filled.set_strip_to_solid_color(Color::new(0, 0, 0));
    assert_eq!(fresh.send_all_sequential(), filled.send_all_sequential());
    let bytes = s.colors_to_bytes(&vec![Color::default(); 2]);
    assert_eq!(bytes, vec![0; 6]);
}

#[test]
fn fill_all_twice_is_idempotent() {
    let s = strip(1, 4, false, ColorOrder::GRB);
    let x = Color::new(12, 34, 56);
    let mut once = LogicalStrip::new(vec![s]);
    once.set_strip_to_solid_color(x);
    let mut twice = LogicalStrip::new(vec![s]);
    twice.set_strip_to_solid_color(x);
    twice.set_strip_to_solid_color(x);
    assert_eq!(once.send_all_sequential(), twice.send_all_sequential());
}

#[test]
fn reversed_strip_matches_forward_on_reversed_colors() {
    let a = Color::new(1, 2, 3);
    let b = Color::new(4, 5, 6);
    let c = Color::new(7, 8, 9);
    let rev = strip(2, 3, true, ColorOrder::GRB);
    let fwd = strip(2, 3, false, ColorOrder::GRB);
    let mut reversed = LogicalStrip::new(vec![rev]);
    reversed.set_color_at_index(0, a);
    reversed.set_color_at_index(1, b);
    reversed.set_color_at_index(2, c);
    let mut forward = LogicalStrip::new(vec![fwd]);
    forward.set_color_at_index(0, c);
    forward.set_color_at_index(1, b);
    forward.set_color_at_index(2, a);
    assert_eq!(reversed.send_all_sequential(), forward.send_all_sequential());
}

#[test]
fn partition_resolves_global_index_to_second_strip() {
    let s0 = strip(0, 3, false, ColorOrder::RGB);
    let s1 = strip(1, 4, false, ColorOrder::RGB);
    let s2 = strip(2, 2, false, ColorOrder::RGB);
    let mut logical = LogicalStrip::new(vec![s0, s1, s2]);
    let x = Color::new(9, 8, 7);
    logical.set_color_at_index(5, x);
    let actions = logical.send_all_sequential();

    // strip 0 owns global [0,3), strip 1 owns [3,7), strip 2 owns [7,9);
    // global index 5 therefore lands at local index 2 of the second strip
    let off = Color::default();
    let mut expected: Vec<PinAction> = Vec::new();
    for (s, colors) in [
        (s0, vec![off, off, off]),
        (s1, vec![off, off, x, off]),
        (s2, vec![off, off]),
    ] {
        let bytes = s.colors_to_bytes(&colors);
        let bits = bytes_as_bit_slice(&bytes);
        expected.extend(s.send_bits(&bits));
    }
    assert_eq!(actions, expected);
}

#[test]
fn end_to_end_two_led_rgb() {
    let s = strip(0, 2, false, ColorOrder::RGB);
    let mut logical = LogicalStrip::new(vec![s]);
    logical.set_color_at_index(0, Color::new(1, 2, 3));
    logical.set_color_at_index(1, Color::new(4, 5, 6));

    let colors = vec![Color::new(1, 2, 3), Color::new(4, 5, 6)];
    let bytes = s.colors_to_bytes(&colors);
    assert_eq!(bytes, vec![1, 2, 3, 4, 5, 6]);
    let bits = bytes_as_bit_slice(&bytes);
    assert_eq!(bits.len(), 48);
    // the first byte holds 1: seven 0-bits, then one 1-bit, MSB first
    assert_eq!(
        bits[..8].to_vec(),
        vec![false, false, false, false, false, false, false, true]
    );

    let actions = logical.send_all_sequential();
    assert_eq!(actions, s.send_bits(&bits));

    // each of the first seven bits expands to the short-high pulse...
    let start = first_bit_action(&actions);
    for k in 0..7 {
        assert_eq!(
            actions[start + 5 * k..start + 5 * (k + 1)].to_vec(),
            vec![
                PinAction::SetHigh { pin: 0 },
                PinAction::WaitTick,
                PinAction::SetLow { pin: 0 },
                PinAction::WaitTick,
                PinAction::WaitTick,
            ]
        );
    }
    // ...and the eighth to the long-high pulse
    assert_eq!(
        actions[start + 35..start + 40].to_vec(),
        vec![
            PinAction::SetHigh { pin: 0 },
            PinAction::WaitTick,
            PinAction::WaitTick,
            PinAction::SetLow { pin: 0 },
            PinAction::WaitTick,
        ]
    );
}

#[test]
fn set_color_changes_only_its_index() {
    let s = strip(0, 3, false, ColorOrder::RGB);
    let mut logical = LogicalStrip::new(vec![s]);
    logical.set_color_at_index(1, Color::new(5, 5, 5));
    let expected_colors = vec![Color::default(), Color::new(5, 5, 5), Color::default()];
    let bytes = s.colors_to_bytes(&expected_colors);
    let bits = bytes_as_bit_slice(&bytes);
    assert_eq!(logical.send_all_sequential(), s.send_bits(&bits));
}

#[test]
fn zero_length_strip_contributes_only_reset() {
    let s = strip(0, 0, false, ColorOrder::RGB);
    let logical = LogicalStrip::new(vec![s]);
    let actions = logical.send_all_sequential();
    let start = first_bit_action(&actions);
    assert_eq!(actions.len(), start);
}
