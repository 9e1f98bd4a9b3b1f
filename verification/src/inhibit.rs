//! Keeping the phone awake while sound comes out: the sleep lock is taken
//! when playback starts and dropped when it stops, and a refusal is reported
//! once.

use vstd::prelude::*;

verus! {

/// The lock's state: whether the system bus is there at all, whether the
/// lock is held, and whether a refusal was already reported.
pub struct Inhibitor {
    pub has_manager: bool,
    pub locked: bool,
    pub complained: bool,
}

/// What a playing-state change asks for.
#[derive(Clone, Copy, Debug, PartialEq, Eq, Structural)]
pub enum InhibitStep {
    /// Ask logind for the lock (`inhibit_request`).
    Take,
    /// Close the lock's descriptor.
    Release,
    Nothing,
}

impl Inhibitor {
    /// No lock held yet; `has_manager` says whether the system bus answered.
    pub fn new(has_manager: bool) -> (s: Inhibitor)
        ensures
            s.has_manager == has_manager,
            !s.locked,
            !s.complained,
    {
        Inhibitor { has_manager, locked: false, complained: false }
    }
}

/// What a playing-state change asks for.
pub open spec fn step_spec(s: Inhibitor, playing: bool) -> InhibitStep {
    if playing && !s.locked && s.has_manager {
        InhibitStep::Take
    } else if !playing && s.locked {
        InhibitStep::Release
    } else {
        InhibitStep::Nothing
    }
}

/// The state after a playing-state change (a `Take` changes nothing until
/// logind answers).
pub open spec fn after_step(s: Inhibitor, playing: bool) -> Inhibitor {
    if !playing && s.locked { Inhibitor { locked: false, ..s } } else { s }
}

/// The state after logind answered a `Take`.
pub open spec fn after_take(s: Inhibitor, ok: bool) -> Inhibitor {
    if ok { Inhibitor { locked: true, ..s } } else { Inhibitor { complained: true, ..s } }
}

/// Whether an answer is reported: a refusal, the first time.
pub open spec fn complain_spec(s: Inhibitor, ok: bool) -> bool {
    !ok && !s.complained
}

/// Hold the lock while playing, release it when not: only the transitions
/// do anything, and without a system bus there is nothing to take.
pub fn set_playing(s: &mut Inhibitor, playing: bool) -> (r: InhibitStep)
    ensures
        r == step_spec(*old(s), playing),
        *final(s) == after_step(*old(s), playing),
{
    if playing && !s.locked {
        if s.has_manager {
            InhibitStep::Take
        } else {
            InhibitStep::Nothing
        }
    } else if !playing && s.locked {
        s.locked = false;
        InhibitStep::Release
    } else {
        InhibitStep::Nothing
    }
}

/// What logind answered to a `Take`. Returns whether to report a refusal,
/// which happens once.
pub fn take_result(s: &mut Inhibitor, ok: bool) -> (complain: bool)
    ensures
        complain == complain_spec(*old(s), ok),
        *final(s) == after_take(*old(s), ok),
{
    if ok {
        s.locked = true;
        false
    } else {
        let first = !s.complained;
        s.complained = true;
        first
    }
}

/// The lock asked of logind: what, who, why (shown verbatim in
/// `systemd-inhibit --list`) and how.
pub fn inhibit_request() -> (r: (&'static str, &'static str, &'static str, &'static str))
    ensures
        r.0@ == "sleep"@,
        r.1@ == "Tunante mini"@,
        r.2@ == "Reproduciendo música"@,
        r.3@ == "block"@,
{
    ("sleep", "Tunante mini", "Reproduciendo música", "block")
}

/// Calling on every tick is cheap: once the lock is held, playing on asks
/// for nothing more; once released, staying paused asks for nothing.
pub proof fn only_transitions_work(s: Inhibitor)
    ensures
        step_spec(after_take(after_step(s, true), true), true) == InhibitStep::Nothing,
        step_spec(after_step(s, false), false) == InhibitStep::Nothing,
{
}

/// A refusal is reported once, however often the lock is asked for.
pub proof fn refusal_reported_once(s: Inhibitor)
    ensures
        !complain_spec(after_take(s, false), false),
{
}

} // verus!
