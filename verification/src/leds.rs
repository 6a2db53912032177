use vstd::prelude::*;

use crate::colors::Color;
use crate::pins::PinAction;
use bitvec::order::Msb0;
use bitvec::view::BitView;

verus! {

/// Pulse widths in nanoseconds for WS2811 chips at the slower datasheet
/// timing: the high time of a 0-bit, the high time of a 1-bit, and the full
/// bit cycle.
pub const WS2811_ZERO_HIGH_NS: u32 = 500;

pub const WS2811_ONE_HIGH_NS: u32 = 1200;

pub const WS2811_FULL_CYCLE_NS: u32 = 2500;

/// Pulse widths in nanoseconds for WS2812 chips.
pub const WS2812_ZERO_HIGH_NS: u32 = 400;

pub const WS2812_ONE_HIGH_NS: u32 = 800;

pub const WS2812_FULL_CYCLE_NS: u32 = 1250;

/// Number of timer ticks the line is held low before a frame, so that the
/// reset/latch time comfortably exceeds the chipset minimum.
pub const WS2811_DELAY_LOOPS_BEFORE_SEND: u32 = 900;

/// Required pulse widths for one target LED chipset, in nanoseconds.
pub struct StripTimings {
    pub zero_h: u32,
    pub one_h: u32,
    pub full_cycle: u32,
}

impl StripTimings {
    /// A profile is sensible when a 0-bit's high pulse is shorter than a
    /// 1-bit's, and both fit within the full bit cycle.
    pub open spec fn wf(self) -> bool {
        0 < self.zero_h < self.one_h < self.full_cycle
    }

    /// The WS2811 profile at the slower datasheet timing.
    pub fn ws2811_adafruit() -> (t: StripTimings)
        ensures
            t == (StripTimings {
                zero_h: WS2811_ZERO_HIGH_NS,
                one_h: WS2811_ONE_HIGH_NS,
                full_cycle: WS2811_FULL_CYCLE_NS,
            }),
            t.wf(),
    {
        StripTimings {
            zero_h: WS2811_ZERO_HIGH_NS,
            one_h: WS2811_ONE_HIGH_NS,
            full_cycle: WS2811_FULL_CYCLE_NS,
        }
    }

    /// The WS2812 profile.
    pub fn ws2812_adafruit() -> (t: StripTimings)
        ensures
            t == (StripTimings {
                zero_h: WS2812_ZERO_HIGH_NS,
                one_h: WS2812_ONE_HIGH_NS,
                full_cycle: WS2812_FULL_CYCLE_NS,
            }),
            t.wf(),
    {
        StripTimings {
            zero_h: WS2812_ZERO_HIGH_NS,
            one_h: WS2812_ONE_HIGH_NS,
            full_cycle: WS2812_FULL_CYCLE_NS,
        }
    }
}

/// The six ways a chipset can expect the red, green and blue bytes laid out
/// on the wire.
#[derive(Clone, Copy, PartialEq, Eq, Structural, Debug)]
pub enum ColorOrder {
    RGB,
    RBG,
    GRB,
    GBR,
    BRG,
    BGR,
}

/// Wire positions of the red, green and blue bytes within each LED's three
/// wire bytes, in that channel order.
pub open spec fn spec_offsets(order: ColorOrder) -> Seq<usize> {
    match order {
        ColorOrder::RGB => seq![0usize, 1usize, 2usize],
        ColorOrder::RBG => seq![0usize, 2usize, 1usize],
        ColorOrder::GRB => seq![1usize, 0usize, 2usize],
        ColorOrder::BRG => seq![1usize, 2usize, 0usize],
        ColorOrder::GBR => seq![2usize, 0usize, 1usize],
        ColorOrder::BGR => seq![2usize, 1usize, 0usize],
    }
}

impl ColorOrder {
    /// Wire positions for red, green and blue respectively.
    pub fn offsets(&self) -> (r: [usize; 3])
        ensures
            r@ == spec_offsets(*self),
    {
        let r: [usize; 3] = match self {
            ColorOrder::RGB => [0, 1, 2],
            ColorOrder::RBG => [0, 2, 1],
            ColorOrder::GRB => [1, 0, 2],
            ColorOrder::BRG => [1, 2, 0],
            ColorOrder::GBR => [2, 0, 1],
            ColorOrder::BGR => [2, 1, 0],
        };
        proof {
            assert(r@ =~= spec_offsets(*self));
        }
        r
    }
}

/// The three wire bytes of one LED: its channels arranged in the given order.
pub open spec fn wire_triple(order: ColorOrder, c: Color) -> Seq<u8> {
    match order {
        ColorOrder::RGB => seq![c.r, c.g, c.b],
        ColorOrder::RBG => seq![c.r, c.b, c.g],
        ColorOrder::GRB => seq![c.g, c.r, c.b],
        ColorOrder::BRG => seq![c.b, c.r, c.g],
        ColorOrder::GBR => seq![c.g, c.b, c.r],
        ColorOrder::BGR => seq![c.b, c.g, c.r],
    }
}

/// Each channel's byte stands at that channel's offset within the triple:
/// red at `offsets[0]`, green at `offsets[1]`, blue at `offsets[2]`.
pub proof fn lemma_wire_triple_offsets(order: ColorOrder, c: Color)
    ensures
        wire_triple(order, c).len() == 3,
        wire_triple(order, c)[spec_offsets(order)[0] as int] == c.r,
        wire_triple(order, c)[spec_offsets(order)[1] as int] == c.g,
        wire_triple(order, c)[spec_offsets(order)[2] as int] == c.b,
{
}

/// The wire bytes of a whole color sequence: three bytes per color, in
/// sequence order.
pub open spec fn encode_spec(order: ColorOrder, colors: Seq<Color>) -> Seq<u8>
    decreases colors.len(),
{
    if colors.len() == 0 {
        Seq::empty()
    } else {
        wire_triple(order, colors[0]) + encode_spec(order, colors.drop_first())
    }
}

/// Appending one color appends its wire triple.
pub proof fn lemma_encode_snoc(order: ColorOrder, colors: Seq<Color>, c: Color)
    ensures
        encode_spec(order, colors.push(c)) == encode_spec(order, colors) + wire_triple(order, c),
    decreases colors.len(),
{
    if colors.len() == 0 {
        let cs = colors.push(c);
        assert(cs[0] == c);
        assert(cs.drop_first() =~= Seq::<Color>::empty());
        assert(encode_spec(order, cs) == wire_triple(order, c) + encode_spec(
            order,
            Seq::<Color>::empty(),
        ));
        assert(wire_triple(order, c) + Seq::<u8>::empty() =~= Seq::<u8>::empty() + wire_triple(
            order,
            c,
        ));
    } else {
        let cs = colors.push(c);
        assert(cs[0] == colors[0]);
        assert(cs.drop_first() =~= colors.drop_first().push(c));
        lemma_encode_snoc(order, colors.drop_first(), c);
        assert(encode_spec(order, cs) == wire_triple(order, colors[0]) + (encode_spec(
            order,
            colors.drop_first(),
        ) + wire_triple(order, c)));
        assert(wire_triple(order, colors[0]) + (encode_spec(order, colors.drop_first())
            + wire_triple(order, c)) =~= (wire_triple(order, colors[0]) + encode_spec(
            order,
            colors.drop_first(),
        )) + wire_triple(order, c));
    }
}

/// A sequence of n colors encodes to exactly 3n wire bytes.
pub proof fn lemma_encode_len(order: ColorOrder, colors: Seq<Color>)
    ensures
        encode_spec(order, colors).len() == 3 * colors.len(),
    decreases colors.len(),
{
    if colors.len() > 0 {
        lemma_encode_len(order, colors.drop_first());
    }
}

/// Placement law: LED `i` contributes exactly the three bytes at base
/// `3 * i`, with its red byte at the order's first offset, green at the
/// second and blue at the third.
pub proof fn lemma_encode_byte_positions(order: ColorOrder, colors: Seq<Color>, i: int)
    requires
        0 <= i < colors.len(),
    ensures
        encode_spec(order, colors)[3 * i + spec_offsets(order)[0]] == colors[i].r,
        encode_spec(order, colors)[3 * i + spec_offsets(order)[1]] == colors[i].g,
        encode_spec(order, colors)[3 * i + spec_offsets(order)[2]] == colors[i].b,
    decreases i,
{
    lemma_wire_triple_offsets(order, colors[i]);
    lemma_offsets_permutation(order);
    if i == 0 {
        assert(encode_spec(order, colors) == wire_triple(order, colors[0]) + encode_spec(
            order,
            colors.drop_first(),
        ));
    } else {
        lemma_encode_byte_positions(order, colors.drop_first(), i - 1);
        lemma_encode_len(order, colors);
        assert(encode_spec(order, colors) == wire_triple(order, colors[0]) + encode_spec(
            order,
            colors.drop_first(),
        ));
        assert(colors.drop_first()[i - 1] == colors[i]);
        assert forall|k: int| 0 <= k < 3 implies encode_spec(order, colors)[3 * i
            + spec_offsets(order)[k]] == encode_spec(order, colors.drop_first())[3 * (i - 1)
            + spec_offsets(order)[k]] by {
            lemma_encode_len(order, colors.drop_first());
        }
    }
}

/// Every channel order maps the three color channels onto three distinct
/// wire positions: its offsets are a permutation of {0, 1, 2}.
pub proof fn lemma_offsets_permutation(order: ColorOrder)
    ensures
        spec_offsets(order).len() == 3,
        forall|k: int| 0 <= k < 3 ==> #[trigger] spec_offsets(order)[k] < 3,
        forall|j: int, k: int|
            0 <= j < k < 3 ==> spec_offsets(order)[j] != spec_offsets(order)[k],
        forall|p: usize| p < 3 ==> #[trigger] spec_offsets(order).contains(p),
{
    assert forall|p: usize| p < 3 implies #[trigger] spec_offsets(order).contains(p) by {
        let s = spec_offsets(order);
        assert(s[0] == p || s[1] == p || s[2] == p);
        if s[0] == p {
            assert(s.contains(p));
        } else if s[1] == p {
            assert(s.contains(p));
        } else {
            assert(s.contains(p));
        }
    }
}

/// Bit `k` of `byte`, most significant bit first: bit 0 is the 0x80 bit.
pub open spec fn bit_at(byte: u8, k: int) -> bool {
    byte >> ((7 - k) as u8) & 1 == 1
}

/// The bits of a byte sequence, byte by byte, most significant bit of each
/// byte first.
pub open spec fn bits_of(bytes: Seq<u8>) -> Seq<bool> {
    Seq::new(bytes.len() * 8, |i: int| bit_at(bytes[i / 8], i % 8))
}

/// Relies on bitvec's `view_bits::<Msb0>` over `u8` storage: it yields the
/// bits of each byte in order, most significant bit of each byte first.
#[verifier::external_body]
pub fn bytes_as_bit_slice(bytes: &Vec<u8>) -> (bits: Vec<bool>)
    ensures
        bits@ == bits_of(bytes@),
{
    bytes.view_bits::<Msb0>().iter().by_vals().collect()
}

/// Configuration of one independently wired LED strip: the output line that
/// drives it, how many LEDs it has, whether its wiring runs in reverse
/// address order, and the channel order its chipset expects.
#[derive(Clone, Copy, PartialEq, Eq, Structural, Debug)]
pub struct PhysicalStrip {
    pub pin: u8,
    pub led_count: usize,
    pub reversed: bool,
    pub color_order: ColorOrder,
}

/// The wire bytes a strip transmits for a slice of the color buffer: the
/// slice is reversed first when the strip is wired in reverse address order.
pub open spec fn wire_bytes(strip: PhysicalStrip, colors: Seq<Color>) -> Seq<u8> {
    encode_spec(
        strip.color_order,
        if strip.reversed {
            colors.reverse()
        } else {
            colors
        },
    )
}

/// Reversal law: a strip wired in reverse over a color sequence puts exactly
/// the bytes on the wire that a forward strip puts there for the reversed
/// sequence.
pub proof fn lemma_reversed_strip_equals_forward_of_reversed(
    p: PhysicalStrip,
    q: PhysicalStrip,
    colors: Seq<Color>,
)
    requires
        p.reversed,
        !q.reversed,
        p.color_order == q.color_order,
    ensures
        wire_bytes(p, colors) == wire_bytes(q, colors.reverse()),
{
}

/// Length law: a strip of n LEDs encodes to exactly 3n wire bytes, and those
/// bytes expand to exactly 24n wire bits.
pub proof fn lemma_encode_lengths(order: ColorOrder, colors: Seq<Color>)
    ensures
        encode_spec(order, colors).len() == 3 * colors.len(),
        bits_of(encode_spec(order, colors)).len() == 24 * colors.len(),
{
    lemma_encode_len(order, colors);
}

impl PhysicalStrip {
    /// Serialize colors, already in this strip's transmission order, to wire
    /// bytes: three bytes per color, each color's channels at this strip's
    /// configured offsets.
    pub fn colors_to_bytes(&self, colors: &Vec<Color>) -> (bytes: Vec<u8>)
        ensures
            bytes@ == encode_spec(self.color_order, colors@),
            bytes@.len() == 3 * colors@.len(),
    {
        let mut bytes: Vec<u8> = Vec::new();
        let mut i: usize = 0;
        while i < colors.len()
            invariant
                i <= colors@.len(),
                bytes@ == encode_spec(self.color_order, colors@.take(i as int)),
                bytes@.len() == 3 * i,
            decreases colors@.len() - i,
        {
            let c = colors[i];
            let (b0, b1, b2): (u8, u8, u8) = match self.color_order {
                ColorOrder::RGB => (c.r, c.g, c.b),
                ColorOrder::RBG => (c.r, c.b, c.g),
                ColorOrder::GRB => (c.g, c.r, c.b),
                ColorOrder::BRG => (c.b, c.r, c.g),
                ColorOrder::GBR => (c.g, c.b, c.r),
                ColorOrder::BGR => (c.b, c.g, c.r),
            };
            bytes.push(b0);
            bytes.push(b1);
            bytes.push(b2);
            proof {
                lemma_encode_snoc(self.color_order, colors@.take(i as int), c);
                assert(colors@.take(i + 1) =~= colors@.take(i as int).push(c));
                assert(bytes@ =~= encode_spec(self.color_order, colors@.take(i + 1)));
            }
            i = i + 1;
        }
        proof {
            assert(colors@.take(colors@.len() as int) =~= colors@);
        }
        bytes
    }

    /// Compute the full action sequence that transmits `bits` on this
    /// strip's line: arm the timer, hold the line low through the reset
    /// pause, then clock out each bit with its duty cycle.
    pub fn send_bits(&self, bits: &Vec<bool>) -> (actions: Vec<PinAction>)
        ensures
            actions@ == send_bits_spec(self.pin, bits@),
    {
        let mut actions: Vec<PinAction> = Vec::new();
        actions.push(PinAction::StartTimer { period_ns: WS2812_TICK_NS });
        actions.push(PinAction::SetLow { pin: self.pin });
        let mut k: u32 = 0;
        while k < WS2811_DELAY_LOOPS_BEFORE_SEND
            invariant
                k <= WS2811_DELAY_LOOPS_BEFORE_SEND,
                actions@ == seq![
                    PinAction::StartTimer { period_ns: WS2812_TICK_NS },
                    PinAction::SetLow { pin: self.pin },
                ] + Seq::new(k as nat, |i: int| PinAction::WaitTick),
            decreases WS2811_DELAY_LOOPS_BEFORE_SEND - k,
        {
            actions.push(PinAction::WaitTick);
            proof {
                assert(actions@ =~= seq![
                    PinAction::StartTimer { period_ns: WS2812_TICK_NS },
                    PinAction::SetLow { pin: self.pin },
                ] + Seq::new((k + 1) as nat, |i: int| PinAction::WaitTick));
            }
            k = k + 1;
        }
        proof {
            assert(bits@.take(0) =~= Seq::<bool>::empty());
            assert(actions@ =~= send_bits_spec(self.pin, bits@.take(0)));
        }
        let mut i: usize = 0;
        while i < bits.len()
            invariant
                i <= bits@.len(),
                actions@ == send_bits_spec(self.pin, bits@.take(i as int)),
            decreases bits@.len() - i,
        {
            let b = bits[i];
            actions.push(PinAction::SetHigh { pin: self.pin });
            if b {
                actions.push(PinAction::WaitTick);
                actions.push(PinAction::WaitTick);
                actions.push(PinAction::SetLow { pin: self.pin });
                actions.push(PinAction::WaitTick);
            } else {
                actions.push(PinAction::WaitTick);
                actions.push(PinAction::SetLow { pin: self.pin });
                actions.push(PinAction::WaitTick);
                actions.push(PinAction::WaitTick);
            }
            proof {
                lemma_bits_actions_snoc(self.pin, bits@.take(i as int), b);
                assert(bits@.take(i + 1) =~= bits@.take(i as int).push(b));
                assert(actions@ =~= send_bits_spec(self.pin, bits@.take(i + 1)));
            }
            i = i + 1;
        }
        proof {
            assert(bits@.take(bits@.len() as int) =~= bits@);
        }
        actions
    }
}

/// One timer tick is a third of the full bit cycle; a bit is sent as high
/// for one or two ticks, then low for the rest of its three ticks.
pub const WS2812_TICK_NS: u32 = WS2812_FULL_CYCLE_NS / 3;

/// The control-surface actions that put one bit on the wire: a 1-bit holds
/// the line high for two ticks and low for one; a 0-bit holds it high for
/// one tick and low for two.
pub open spec fn bit_actions(pin: u8, b: bool) -> Seq<PinAction> {
    if b {
        seq![
            PinAction::SetHigh { pin },
            PinAction::WaitTick,
            PinAction::WaitTick,
            PinAction::SetLow { pin },
            PinAction::WaitTick,
        ]
    } else {
        seq![
            PinAction::SetHigh { pin },
            PinAction::WaitTick,
            PinAction::SetLow { pin },
            PinAction::WaitTick,
            PinAction::WaitTick,
        ]
    }
}

/// The actions that put a whole bit sequence on the wire, bit by bit.
pub open spec fn bits_actions(pin: u8, bits: Seq<bool>) -> Seq<PinAction>
    decreases bits.len(),
{
    if bits.len() == 0 {
        Seq::empty()
    } else {
        bit_actions(pin, bits[0]) + bits_actions(pin, bits.drop_first())
    }
}

/// Appending one bit appends its five actions.
pub proof fn lemma_bits_actions_snoc(pin: u8, bits: Seq<bool>, b: bool)
    ensures
        bits_actions(pin, bits.push(b)) == bits_actions(pin, bits) + bit_actions(pin, b),
    decreases bits.len(),
{
    if bits.len() == 0 {
        let bs = bits.push(b);
        assert(bs[0] == b);
        assert(bs.drop_first() =~= Seq::<bool>::empty());
        assert(bits_actions(pin, bs) == bit_actions(pin, b) + bits_actions(
            pin,
            Seq::<bool>::empty(),
        ));
        assert(bit_actions(pin, b) + Seq::<PinAction>::empty() =~= Seq::<PinAction>::empty()
            + bit_actions(pin, b));
    } else {
        let bs = bits.push(b);
        assert(bs[0] == bits[0]);
        assert(bs.drop_first() =~= bits.drop_first().push(b));
        lemma_bits_actions_snoc(pin, bits.drop_first(), b);
        assert(bits_actions(pin, bs) == bit_actions(pin, bits[0]) + (bits_actions(
            pin,
            bits.drop_first(),
        ) + bit_actions(pin, b)));
        assert(bit_actions(pin, bits[0]) + (bits_actions(pin, bits.drop_first()) + bit_actions(
            pin,
            b,
        )) =~= (bit_actions(pin, bits[0]) + bits_actions(pin, bits.drop_first())) + bit_actions(
            pin,
            b,
        ));
    }
}

/// Tick law: every bit occupies exactly three timer ticks, whatever its
/// value; a 1-bit spends two of them with the line high and one low, a
/// 0-bit one high and two low.
pub proof fn lemma_bit_tick_counts(pin: u8, b: bool)
    ensures
        crate::pins::wait_count(bit_actions(pin, b)) == 3,
        crate::pins::high_wait_count(bit_actions(pin, b), false) == if b {
            2int
        } else {
            1int
        },
        crate::pins::wait_count(bit_actions(pin, b)) - crate::pins::high_wait_count(
            bit_actions(pin, b),
            false,
        ) == if b {
            1int
        } else {
            2int
        },
{
    reveal_with_fuel(crate::pins::wait_count_from, 7);
    reveal_with_fuel(crate::pins::high_wait_count_from, 7);
    let s = bit_actions(pin, b);
    assert(s.len() == 5);
}

/// A whole bit sequence consumes exactly three ticks per bit.
pub proof fn lemma_bits_tick_total(pin: u8, bits: Seq<bool>)
    ensures
        crate::pins::wait_count(bits_actions(pin, bits)) == 3 * bits.len(),
    decreases bits.len(),
{
    if bits.len() == 0 {
        reveal_with_fuel(crate::pins::wait_count_from, 1);
    } else {
        lemma_bit_tick_counts(pin, bits[0]);
        lemma_bits_tick_total(pin, bits.drop_first());
        crate::pins::lemma_wait_count_concat(
            bit_actions(pin, bits[0]),
            bits_actions(pin, bits.drop_first()),
        );
    }
}

/// The actions that hold the line low through the reset/latch pause before
/// a frame.
pub open spec fn reset_actions(pin: u8) -> Seq<PinAction> {
    seq![PinAction::SetLow { pin }] + Seq::new(
        WS2811_DELAY_LOOPS_BEFORE_SEND as nat,
        |i: int| PinAction::WaitTick,
    )
}

/// Everything one strip's transmission does: re-arm the periodic timer to a
/// third of the bit cycle, hold the line low through the reset pause, then
/// send each bit in order.
pub open spec fn send_bits_spec(pin: u8, bits: Seq<bool>) -> Seq<PinAction> {
    seq![PinAction::StartTimer { period_ns: WS2812_TICK_NS }] + reset_actions(pin) + bits_actions(
        pin,
        bits,
    )
}

/// Frame timing law: one strip's whole transmission consumes exactly the
/// reset pause's ticks plus three ticks per bit, so its duration is fixed
/// by the bit count alone.
pub proof fn lemma_send_bits_tick_total(pin: u8, bits: Seq<bool>)
    ensures
        crate::pins::wait_count(send_bits_spec(pin, bits)) == WS2811_DELAY_LOOPS_BEFORE_SEND + 3
            * bits.len(),
{
    let arm = seq![PinAction::StartTimer { period_ns: WS2812_TICK_NS }];
    let pause = Seq::new(WS2811_DELAY_LOOPS_BEFORE_SEND as nat, |i: int| PinAction::WaitTick);
    let low = seq![PinAction::SetLow { pin }];
    crate::pins::lemma_wait_count_concat(arm + reset_actions(pin), bits_actions(pin, bits));
    crate::pins::lemma_wait_count_concat(arm, reset_actions(pin));
    crate::pins::lemma_wait_count_concat(low, pause);
    crate::pins::lemma_wait_count_all_ticks(pause);
    reveal_with_fuel(crate::pins::wait_count_from, 2);
    assert(crate::pins::wait_count(arm) == 0);
    assert(crate::pins::wait_count(low) == 0);
    lemma_bits_tick_total(pin, bits);
}

/// Number of LEDs on the first `k` strips: strip `k` owns the buffer range
/// starting at this index.
pub open spec fn leds_before(strips: Seq<PhysicalStrip>, k: int) -> int
    decreases k,
{
    if k <= 0 {
        0
    } else {
        leds_before(strips, k - 1) + strips[k - 1].led_count
    }
}

/// Number of LEDs across all strips: the length the shared buffer must have.
pub open spec fn total_leds(strips: Seq<PhysicalStrip>) -> int {
    leds_before(strips, strips.len() as int)
}

/// No prefix of strips has a negative LED count.
pub proof fn lemma_leds_before_nonneg(strips: Seq<PhysicalStrip>, k: int)
    ensures
        leds_before(strips, k) >= 0,
    decreases k,
{
    if k > 0 {
        lemma_leds_before_nonneg(strips, k - 1);
    }
}

/// Strip offsets grow with the strip index.
pub proof fn lemma_leds_before_mono(strips: Seq<PhysicalStrip>, j: int, k: int)
    requires
        0 <= j <= k,
    ensures
        0 <= leds_before(strips, j) <= leds_before(strips, k),
    decreases k - j,
{
    lemma_leds_before_nonneg(strips, j);
    if j < k {
        lemma_leds_before_mono(strips, j, k - 1);
    }
}

/// Partition law: strip `i` owns the contiguous buffer range that starts
/// where strip `i - 1` ends and spans exactly its own LED count, and every
/// such range lies within the buffer of a well-sized logical strip.
pub proof fn lemma_strip_partition(strips: Seq<PhysicalStrip>, i: int)
    requires
        0 <= i < strips.len(),
    ensures
        leds_before(strips, i + 1) == leds_before(strips, i) + strips[i].led_count,
        0 <= leds_before(strips, i),
        leds_before(strips, i + 1) <= total_leds(strips),
{
    lemma_leds_before_mono(strips, 0, i);
    lemma_leds_before_mono(strips, i + 1, strips.len() as int);
}

/// The largest `led_count` among the first `k` strips.
pub open spec fn max_leds_before(strips: Seq<PhysicalStrip>, k: int) -> int
    decreases k,
{
    if k <= 0 {
        0
    } else {
        let m = max_leds_before(strips, k - 1);
        if strips[k - 1].led_count > m {
            strips[k - 1].led_count as int
        } else {
            m
        }
    }
}

/// The largest `led_count` among all strips.
pub open spec fn max_led_count(strips: Seq<PhysicalStrip>) -> int {
    max_leds_before(strips, strips.len() as int)
}

/// Total LED count across the given strips.
pub fn get_total_num_leds(strips: &Vec<PhysicalStrip>) -> (n: usize)
    requires
        total_leds(strips@) <= usize::MAX,
    ensures
        n == total_leds(strips@),
{
    let mut total: usize = 0;
    let mut index: usize = 0;
    while index < strips.len()
        invariant
            index <= strips@.len(),
            total == leds_before(strips@, index as int),
            total_leds(strips@) <= usize::MAX,
        decreases strips@.len() - index,
    {
        proof {
            lemma_leds_before_mono(strips@, index + 1, strips@.len() as int);
        }
        total = total + strips[index].led_count;
        index = index + 1;
    }
    total
}

/// Byte capacity a shared scratch buffer needs to encode any one of the
/// given strips: three bytes per LED of the largest strip.
pub fn get_single_strip_buffer_max_length(strips: &Vec<PhysicalStrip>) -> (n: usize)
    requires
        3 * max_led_count(strips@) <= usize::MAX,
    ensures
        n == 3 * max_led_count(strips@),
{
    let mut max_len: usize = 0;
    let mut index: usize = 0;
    while index < strips.len()
        invariant
            index <= strips@.len(),
            max_len == max_leds_before(strips@, index as int),
        decreases strips@.len() - index,
    {
        if strips[index].led_count > max_len {
            max_len = strips[index].led_count;
        }
        index = index + 1;
    }
    // three bytes per led
    max_len * 3
}

/// A buffer of `len` copies of one color.
pub open spec fn solid(len: nat, c: Color) -> Seq<Color> {
    Seq::new(len, |i: int| c)
}

/// Idempotence law: a second whole-buffer fill with the same color starts
/// from a buffer of the same length, so it produces exactly the buffer the
/// first fill produced.
pub proof fn lemma_solid_fill_idempotent(len: nat, color: Color)
    ensures
        solid(solid(len, color).len(), color) == solid(len, color),
{
}

/// The slice of the shared buffer belonging to strip `i`, in logical
/// (forward) order.
pub open spec fn strip_slice(buffer: Seq<Color>, strips: Seq<PhysicalStrip>, i: int) -> Seq<
    Color,
> {
    buffer.subrange(leds_before(strips, i), leds_before(strips, i + 1))
}

/// The actions strip `i` contributes to one frame: its slice of the buffer,
/// reversed when the strip is wired in reverse, encoded to bytes, expanded
/// to bits, and clocked out on its line.
pub open spec fn strip_actions(buffer: Seq<Color>, strips: Seq<PhysicalStrip>, i: int) -> Seq<
    PinAction,
> {
    send_bits_spec(
        strips[i].pin,
        bits_of(wire_bytes(strips[i], strip_slice(buffer, strips, i))),
    )
}

/// The actions of the first `k` strips of a frame, in configured order.
pub open spec fn frame_actions_prefix(
    buffer: Seq<Color>,
    strips: Seq<PhysicalStrip>,
    k: int,
) -> Seq<PinAction>
    decreases k,
{
    if k <= 0 {
        Seq::empty()
    } else {
        frame_actions_prefix(buffer, strips, k - 1) + strip_actions(buffer, strips, k - 1)
    }
}

/// Everything one full frame does: every strip's transmission, strictly in
/// configured order.
pub open spec fn frame_actions(buffer: Seq<Color>, strips: Seq<PhysicalStrip>) -> Seq<PinAction> {
    frame_actions_prefix(buffer, strips, strips.len() as int)
}

/// Copy of `buffer[start..end]`.
fn copy_color_range(buffer: &Vec<Color>, start: usize, end: usize) -> (r: Vec<Color>)
    requires
        start <= end <= buffer@.len(),
    ensures
        r@ == buffer@.subrange(start as int, end as int),
{
    let mut r: Vec<Color> = Vec::new();
    let mut j: usize = start;
    while j < end
        invariant
            start <= j <= end <= buffer@.len(),
            r@ == buffer@.subrange(start as int, j as int),
        decreases end - j,
    {
        r.push(buffer[j]);
        proof {
            assert(buffer@.subrange(start as int, j + 1) =~= buffer@.subrange(
                start as int,
                j as int,
            ).push(buffer@[j as int]));
        }
        j = j + 1;
    }
    r
}

/// Copy of `v` in reverse order.
fn reversed_colors(v: &Vec<Color>) -> (r: Vec<Color>)
    ensures
        r@ == v@.reverse(),
{
    let n = v.len();
    let mut r: Vec<Color> = Vec::new();
    let mut j: usize = 0;
    while j < n
        invariant
            j <= n,
            n == v@.len(),
            r@.len() == j,
            forall|t: int| 0 <= t < j ==> r@[t] == v@[n - 1 - t],
        decreases n - j,
    {
        r.push(v[n - 1 - j]);
        j = j + 1;
    }
    proof {
        assert(r@ =~= v@.reverse());
    }
    r
}

/// The aggregate of all configured strips: one flat color buffer addressed
/// by a single global index, partitioned over the strips in configured
/// order.
pub struct LogicalStrip {
    color_buffer: Vec<Color>,
    strips: Vec<PhysicalStrip>,
}

impl LogicalStrip {
    /// The color buffer, one entry per LED across all strips.
    pub closed spec fn buffer(&self) -> Seq<Color> {
        self.color_buffer@
    }

    /// The physical strip configurations, in transmission order.
    pub closed spec fn strip_configs(&self) -> Seq<PhysicalStrip> {
        self.strips@
    }

    /// The buffer spans exactly the LEDs of all configured strips.
    pub open spec fn wf(&self) -> bool {
        self.buffer().len() == total_leds(self.strip_configs())
    }

    /// A logical strip over the given configurations, with every LED off.
    pub fn new(strips: Vec<PhysicalStrip>) -> (s: LogicalStrip)
        requires
            total_leds(strips@) <= usize::MAX,
        ensures
            s.wf(),
            s.strip_configs() == strips@,
            s.buffer() == solid(total_leds(strips@) as nat, Color { r: 0, g: 0, b: 0 }),
    {
        let n = get_total_num_leds(&strips);
        let mut buffer: Vec<Color> = Vec::new();
        let mut i: usize = 0;
        while i < n
            invariant
                i <= n,
                buffer@.len() == i,
                forall|t: int| 0 <= t < i ==> buffer@[t] == (Color { r: 0, g: 0, b: 0 }),
            decreases n - i,
        {
            buffer.push(Color { r: 0, g: 0, b: 0 });
            i = i + 1;
        }
        proof {
            assert(buffer@ =~= solid(n as nat, Color { r: 0, g: 0, b: 0 }));
        }
        LogicalStrip { color_buffer: buffer, strips }
    }

    /// Overwrite the color at one global index.
    pub fn set_color_at_index(&mut self, index: usize, color: Color)
        requires
            index < old(self).buffer().len(),
        ensures
            final(self).buffer() == old(self).buffer().update(index as int, color),
            final(self).strip_configs() == old(self).strip_configs(),
    {
        self.color_buffer[index] = color;
    }

    /// Overwrite every entry of the buffer with one color.
    pub fn set_strip_to_solid_color(&mut self, color: Color)
        ensures
            final(self).buffer() == solid(old(self).buffer().len(), color),
            final(self).strip_configs() == old(self).strip_configs(),
    {
        let n = self.color_buffer.len();
        let mut buffer: Vec<Color> = Vec::new();
        let mut i: usize = 0;
        while i < n
            invariant
                i <= n,
                buffer@.len() == i,
                forall|t: int| 0 <= t < i ==> buffer@[t] == color,
            decreases n - i,
        {
            buffer.push(color);
            i = i + 1;
        }
        proof {
            assert(buffer@ =~= solid(n as nat, color));
        }
        self.color_buffer = buffer;
    }

    /// Compute one frame's action sequence: for each strip in configured
    /// order, slice the buffer at the strip's running offset, apply its
    /// reversal and channel order, and clock the resulting bits out on its
    /// line.
    pub fn send_all_sequential(&self) -> (actions: Vec<PinAction>)
        requires
            self.wf(),
        ensures
            actions@ == frame_actions(self.buffer(), self.strip_configs()),
    {
        let mut actions: Vec<PinAction> = Vec::new();
        proof {
            assert(self.color_buffer.len() == self.color_buffer@.len());
        }
        let mut start_index: usize = 0;
        let mut s: usize = 0;
        while s < self.strips.len()
            invariant
                self.wf(),
                self.color_buffer@.len() <= usize::MAX,
                s <= self.strips@.len(),
                start_index == leds_before(self.strips@, s as int),
                actions@ == frame_actions_prefix(self.color_buffer@, self.strips@, s as int),
            decreases self.strips@.len() - s,
        {
            let ghost strips = self.strips@;
            let ghost buf = self.color_buffer@;
            let strip = self.strips[s];
            proof {
                assert(strip == strips[s as int]);
                assert(leds_before(strips, s + 1) == leds_before(strips, s as int)
                    + strips[s as int].led_count);
                lemma_leds_before_mono(strips, s + 1, strips.len() as int);
            }
            let end_index = start_index + strip.led_count;
            let current = copy_color_range(&self.color_buffer, start_index, end_index);
            let ghost slice = strip_slice(buf, strips, s as int);
            proof {
                assert(current@ == slice);
            }
            let wire = if strip.reversed {
                reversed_colors(&current)
            } else {
                current
            };
            proof {
                assert(wire@ == if strip.reversed {
                    slice.reverse()
                } else {
                    slice
                });
            }
            let bytes = strip.colors_to_bytes(&wire);
            let bits = bytes_as_bit_slice(&bytes);
            let mut strip_acts = strip.send_bits(&bits);
            let ghost sent = strip_acts@;
            proof {
                assert(bytes@ == wire_bytes(strip, slice));
                assert(sent == strip_actions(buf, strips, s as int));
            }
            actions.append(&mut strip_acts);
            proof {
                assert(actions@ == frame_actions_prefix(buf, strips, s + 1));
            }
            start_index = end_index;
            s = s + 1;
        }
        actions
    }
}

} // verus!
