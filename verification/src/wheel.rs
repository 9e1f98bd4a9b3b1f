//! The wheel over the tray icon on Windows, where only a low-level mouse hook
//! hears it: when to set and drop the hook, and how the wheel's units add up
//! to whole notches (`+1` up, `-1` down).

use vstd::prelude::*;

verus! {

/// Wheel units that make one notch (`WHEEL_DELTA`).
pub const WHEEL_DELTA: i32 = 120;

/// The hook's state: whether it is set, and the units short of a notch
/// carried over from the last wheel message.
pub struct WheelState {
    pub hooked: bool,
    pub carry: i32,
}

impl WheelState {
    /// A carry always lies strictly between minus one notch and one notch.
    pub open spec fn wf(&self) -> bool {
        -WHEEL_DELTA < self.carry < WHEEL_DELTA
    }

    /// No hook, nothing carried.
    pub fn new() -> (s: WheelState)
        ensures
            s.wf(),
            !s.hooked,
            s.carry == 0,
    {
        WheelState { hooked: false, carry: 0 }
    }
}

/// What a hover change asks of the hook.
#[derive(Clone, Copy, Debug, PartialEq, Eq, Structural)]
pub enum HookStep {
    /// Set a new hook (the carry has been cleared).
    Install,
    /// Drop the hook that is set.
    Remove,
    /// Leave things as they are.
    Keep,
}

/// The pointer came onto the icon (`inside`) or left it.
pub fn hover(s: &mut WheelState, inside: bool) -> (r: HookStep)
    requires
        old(s).wf(),
    ensures
        final(s).wf(),
        inside && old(s).hooked ==> r == HookStep::Keep && *final(s) == *old(s),
        inside && !old(s).hooked ==> r == HookStep::Install && final(s).carry == 0 && !final(s).hooked,
        !inside && old(s).hooked ==> r == HookStep::Remove && !final(s).hooked && final(s).carry == old(s).carry,
        !inside && !old(s).hooked ==> r == HookStep::Keep && *final(s) == *old(s),
{
    if inside {
        if s.hooked {
            return HookStep::Keep;
        }
        s.carry = 0;
        HookStep::Install
    } else {
        if s.hooked {
            s.hooked = false;
            HookStep::Remove
        } else {
            HookStep::Keep
        }
    }
}

/// Records whether setting the hook worked.
pub fn hook_set(s: &mut WheelState, ok: bool)
    requires
        old(s).wf(),
    ensures
        final(s).wf(),
        final(s).hooked == ok,
        final(s).carry == old(s).carry,
{
    s.hooked = ok;
}

/// The wheel delta in a message's `mouseData`: the high word, signed.
pub open spec fn wheel_delta(mouse_data: u32) -> int {
    let hi = mouse_data as int / 0x1_0000;
    if hi >= 0x8000 { hi - 0x1_0000 } else { hi }
}

/// Rust's `/` on integers: the quotient rounded toward zero.
pub open spec fn quot_toward_zero(a: int, b: int) -> int {
    if a >= 0 { a / b } else { -((-a) / b) }
}

/// What one mouse message does to the carry: for a message that counts, the
/// whole notches in the carry plus its delta, and the units left over; for
/// any other, no notches and the carry as it was.
pub open spec fn wheel_step(carry: int, counted: bool, delta: int) -> (int, int) {
    if counted {
        let n = quot_toward_zero(carry + delta, WHEEL_DELTA as int);
        (n, carry + delta - n * WHEEL_DELTA)
    } else {
        (0, carry)
    }
}

/// A mouse message the hook sees: the whole notches to act on, if there are
/// any. Only a wheel message (`code >= 0`, `is_wheel`) over the icon counts;
/// its units are added to the carry, whole notches come out and the rest
/// stays. No notches means no call: the hook never reports zero.
pub fn on_mouse(s: &mut WheelState, code: i32, is_wheel: bool, over_icon: bool, mouse_data: u32) -> (notches: Option<i32>)
    requires
        old(s).wf(),
    ensures
        final(s).wf(),
        final(s).hooked == old(s).hooked,
        ({
            let step = wheel_step(old(s).carry as int, code >= 0 && is_wheel && over_icon, wheel_delta(mouse_data));
            &&& final(s).carry == step.1
            &&& notches == (if step.0 != 0 { Some(step.0 as i32) } else { None })
        }),
        notches matches Some(k) ==> k != 0,
{
    if !(code >= 0 && is_wheel && over_icon) {
        return None;
    }
    let hi: u32 = mouse_data / 0x1_0000;
    let delta: i32 = if hi >= 0x8000 { hi as i32 - 0x1_0000 } else { hi as i32 };
    let total: i32 = s.carry + delta;
    let notches: i32 = total / WHEEL_DELTA;
    s.carry = total - notches * WHEEL_DELTA;
    if notches != 0 { Some(notches) } else { None }
}

/// A run of mouse messages, each a pair of whether it counts and its wheel
/// delta, from `carry`: the notches reported in all, and the carry left.
pub open spec fn wheel_run(carry: int, msgs: Seq<(bool, int)>) -> (int, int)
    decreases msgs.len(),
{
    if msgs.len() == 0 {
        (0, carry)
    } else {
        let before = wheel_run(carry, msgs.drop_last());
        let step = wheel_step(before.1, msgs.last().0, msgs.last().1);
        (before.0 + step.0, step.1)
    }
}

/// The wheel units of the messages of a run that count.
pub open spec fn counted_units(msgs: Seq<(bool, int)>) -> int
    decreases msgs.len(),
{
    if msgs.len() == 0 {
        0
    } else {
        counted_units(msgs.drop_last()) + (if msgs.last().0 { msgs.last().1 } else { 0 })
    }
}

/// What a wheel message does is exact: the notches it yields, in units, plus
/// the carry it leaves equal the carry before plus the message's delta, and
/// the carry left is less than a notch and has the sign of that sum.
pub proof fn wheel_units_kept(carry: int, delta: int, notches: int, rest: int)
    requires
        -WHEEL_DELTA < carry < WHEEL_DELTA,
        notches == quot_toward_zero(carry + delta, WHEEL_DELTA as int),
        rest == carry + delta - notches * WHEEL_DELTA,
    ensures
        notches * WHEEL_DELTA + rest == carry + delta,
        -WHEEL_DELTA < rest < WHEEL_DELTA,
        carry + delta >= 0 ==> rest >= 0,
        carry + delta <= 0 ==> rest <= 0,
{
    let t = carry + delta;
    if t >= 0 {
        assert(t / 120 * 120 <= t < t / 120 * 120 + 120) by (nonlinear_arith);
    } else {
        assert((-t) / 120 * 120 <= -t < (-t) / 120 * 120 + 120) by (nonlinear_arith);
    }
}

/// Over any run of messages, every unit of the wheel is accounted for: the
/// notches reported, in units, plus the carry left equal the carry at the
/// start plus the units of every message that counted, and the carry left is
/// less than a notch. Messages that do not count change nothing.
pub proof fn wheel_run_adds_up(carry: int, msgs: Seq<(bool, int)>)
    requires
        -WHEEL_DELTA < carry < WHEEL_DELTA,
    ensures
        wheel_run(carry, msgs).0 * WHEEL_DELTA + wheel_run(carry, msgs).1 == carry + counted_units(msgs),
        -WHEEL_DELTA < wheel_run(carry, msgs).1 < WHEEL_DELTA,
    decreases msgs.len(),
{
    if msgs.len() > 0 {
        let before = wheel_run(carry, msgs.drop_last());
        wheel_run_adds_up(carry, msgs.drop_last());
        if msgs.last().0 {
            let t = before.1 + msgs.last().1;
            let n = quot_toward_zero(t, WHEEL_DELTA as int);
            wheel_units_kept(before.1, msgs.last().1, n, t - n * WHEEL_DELTA);
            assert((before.0 + n) * WHEEL_DELTA == before.0 * WHEEL_DELTA + n * WHEEL_DELTA) by (nonlinear_arith);
        }
    }
}

} // verus!
