use vstd::prelude::*;

verus! {

/// One operation on the pin/timer control surface.
///
/// The transmission routines compute a sequence of these actions; the
/// surrounding program plays the sequence back on real hardware, mapping
/// `StartTimer` and `WaitTick` onto a periodic hardware counter and
/// `SetLow` / `SetHigh` onto digital output lines.
#[derive(Clone, Copy, PartialEq, Eq, Structural, Debug)]
pub enum PinAction {
    /// (Re)arm the shared periodic timer to raise a match condition every
    /// `period_ns` nanoseconds, counting from zero.
    StartTimer { period_ns: u32 },
    /// Drive the named output line low.
    SetLow { pin: u8 },
    /// Drive the named output line high.
    SetHigh { pin: u8 },
    /// Busy-wait until the periodic timer's next match, then clear it.
    WaitTick,
}

/// The line level after performing `a`, starting from `level`.
pub open spec fn line_after(a: PinAction, level: bool) -> bool {
    match a {
        PinAction::SetHigh { .. } => true,
        PinAction::SetLow { .. } => false,
        _ => level,
    }
}

/// Number of timer ticks consumed by `s[j..]`.
pub open spec fn wait_count_from(s: Seq<PinAction>, j: int) -> int
    decreases s.len() - j,
{
    if j < 0 || j >= s.len() {
        0
    } else {
        (if s[j] is WaitTick {
            1int
        } else {
            0int
        }) + wait_count_from(s, j + 1)
    }
}

/// Number of timer ticks consumed by the whole sequence `s`.
pub open spec fn wait_count(s: Seq<PinAction>) -> int {
    wait_count_from(s, 0)
}

proof fn lemma_wait_count_from_concat_right(a: Seq<PinAction>, b: Seq<PinAction>, t: int)
    requires
        0 <= t <= b.len(),
    ensures
        wait_count_from(a + b, a.len() + t) == wait_count_from(b, t),
    decreases b.len() - t,
{
    if t < b.len() {
        assert((a + b)[a.len() + t] == b[t]);
        lemma_wait_count_from_concat_right(a, b, t + 1);
    }
}

proof fn lemma_wait_count_from_concat(a: Seq<PinAction>, b: Seq<PinAction>, j: int)
    requires
        0 <= j <= a.len(),
    ensures
        wait_count_from(a + b, j) == wait_count_from(a, j) + wait_count_from(b, 0),
    decreases a.len() - j,
{
    if j < a.len() {
        assert((a + b)[j] == a[j]);
        lemma_wait_count_from_concat(a, b, j + 1);
    } else {
        lemma_wait_count_from_concat_right(a, b, 0);
    }
}

/// Tick counts add across concatenation.
pub proof fn lemma_wait_count_concat(a: Seq<PinAction>, b: Seq<PinAction>)
    ensures
        wait_count(a + b) == wait_count(a) + wait_count(b),
{
    lemma_wait_count_from_concat(a, b, 0);
}

/// A sequence of nothing but ticks counts its own length.
pub proof fn lemma_wait_count_all_ticks(s: Seq<PinAction>)
    requires
        forall|t: int| 0 <= t < s.len() ==> s[t] is WaitTick,
    ensures
        wait_count(s) == s.len(),
{
    lemma_wait_count_from_all_ticks(s, 0);
}

proof fn lemma_wait_count_from_all_ticks(s: Seq<PinAction>, j: int)
    requires
        0 <= j <= s.len(),
        forall|t: int| 0 <= t < s.len() ==> s[t] is WaitTick,
    ensures
        wait_count_from(s, j) == s.len() - j,
    decreases s.len() - j,
{
    if j < s.len() {
        lemma_wait_count_from_all_ticks(s, j + 1);
    }
}

/// Number of ticks in `s[j..]` spent while the line is high, given that the
/// line is at `level` before `s[j]` runs.
pub open spec fn high_wait_count_from(s: Seq<PinAction>, j: int, level: bool) -> int
    decreases s.len() - j,
{
    if j < 0 || j >= s.len() {
        0
    } else {
        (if s[j] is WaitTick && level {
            1int
        } else {
            0int
        }) + high_wait_count_from(s, j + 1, line_after(s[j], level))
    }
}

/// Number of ticks in `s` spent while the line is high, starting from `level`.
pub open spec fn high_wait_count(s: Seq<PinAction>, level: bool) -> int {
    high_wait_count_from(s, 0, level)
}

} // verus!
