//! The player's own decisions on top of the audio engine: the crossfade as a
//! state machine stepped by a timer, when a track change fades at all, and
//! how the queue's list is edited (append, remove a row, move a row) while
//! the playing track is kept hold of.

use vstd::prelude::*;

verus! {

/// A crossfade in flight.
pub enum Fade {
    Idle,
    /// Ramping the old track down; the new one starts when it reaches zero.
    Out { step: u32, steps: u32, path: String, hint: i64 },
    /// Ramping the new track up to the user's volume.
    In { step: u32, steps: u32 },
}

impl Fade {
    /// A ramp has at least one step and has not run past its last.
    pub open spec fn wf(&self) -> bool {
        match *self {
            Fade::Idle => true,
            Fade::Out { step, steps, .. } => 1 <= steps && step < steps,
            Fade::In { step, steps } => 1 <= steps && step < steps,
        }
    }

    /// Ticks left before the fade is over: the rest of the ramp down, then
    /// the whole ramp up.
    pub open spec fn remaining(&self) -> nat {
        match *self {
            Fade::Idle => 0,
            Fade::Out { step, steps, .. } => ((steps - step) + steps) as nat,
            Fade::In { step, steps } => (steps - step) as nat,
        }
    }
}

/// What one 25 ms tick asks of the engine. A ramp at `step` of `steps` puts
/// the raw volume at the user's volume times `1 - step/steps` going down and
/// `step/steps` going up.
pub enum FadeTick {
    /// Nothing is fading; the timer can stop.
    Stopped,
    /// Set the raw volume on the way down.
    Down { step: u32, steps: u32 },
    /// The ramp down is done: set it to silence and start `path` silently.
    /// If that fails, put the raw volume back to the user's and stop
    /// (`abort_fade`).
    Switch { step: u32, steps: u32, path: String, hint: i64 },
    /// Set the raw volume on the way up.
    Up { step: u32, steps: u32 },
    /// The ramp up is done: back to the user's volume; the timer can stop.
    Done,
}

/// One tick of the crossfade: what it asks of the engine and the fade it
/// leaves.
pub open spec fn tick_spec(f: Fade) -> (FadeTick, Fade) {
    match f {
        Fade::Idle => (FadeTick::Stopped, Fade::Idle),
        Fade::Out { step, steps, path, hint } => if step + 1 < steps {
            (FadeTick::Down { step: (step + 1) as u32, steps }, Fade::Out { step: (step + 1) as u32, steps, path, hint })
        } else {
            (FadeTick::Switch { step: (step + 1) as u32, steps, path, hint }, Fade::In { step: 0, steps })
        },
        Fade::In { step, steps } => if step + 1 < steps {
            (FadeTick::Up { step: (step + 1) as u32, steps }, Fade::In { step: (step + 1) as u32, steps })
        } else {
            (FadeTick::Done, Fade::Idle)
        },
    }
}

/// The fade after `k` ticks from `f`.
pub open spec fn ticks(f: Fade, k: nat) -> Fade
    decreases k,
{
    if k == 0 {
        f
    } else {
        tick_spec(ticks(f, (k - 1) as nat)).1
    }
}

/// One tick of the crossfade.
pub fn tick_fade(f: &mut Fade) -> (r: FadeTick)
    requires
        old(f).wf(),
    ensures
        (r, *final(f)) == tick_spec(*old(f)),
        final(f).wf(),
        old(f).remaining() > 0 ==> final(f).remaining() + 1 == old(f).remaining(),
        match *old(f) {
            Fade::Idle => r is Stopped && *final(f) is Idle,
            Fade::Out { step, steps, path, hint } => if step + 1 < steps {
                (r matches FadeTick::Down { step: s, steps: n } && s == step + 1 && n == steps)
                    && (*final(f) matches Fade::Out { step: s2, steps: n2, path: p2, hint: h2 } && s2 == step + 1
                        && n2 == steps && p2@ == path@ && h2 == hint)
            } else {
                (r matches FadeTick::Switch { step: s, steps: n, path: p, hint: h } && s == steps && n == steps
                    && p@ == path@ && h == hint)
                    && (*final(f) matches Fade::In { step: s2, steps: n2 } && s2 == 0 && n2 == steps)
            },
            Fade::In { step, steps } => if step + 1 < steps {
                (r matches FadeTick::Up { step: s, steps: n } && s == step + 1 && n == steps)
                    && (*final(f) matches Fade::In { step: s2, steps: n2 } && s2 == step + 1 && n2 == steps)
            } else {
                r is Done && *final(f) is Idle
            },
        },
{
    let mut cur = Fade::Idle;
    std::mem::swap(&mut cur, f);
    match cur {
        Fade::Idle => FadeTick::Stopped,
        Fade::Out { step, steps, path, hint } => {
            let s = step + 1;
            if s >= steps {
                *f = Fade::In { step: 0, steps };
                FadeTick::Switch { step: s, steps, path, hint }
            } else {
                *f = Fade::Out { step: s, steps, path, hint };
                FadeTick::Down { step: s, steps }
            }
        },
        Fade::In { step, steps } => {
            let s = step + 1;
            if s >= steps {
                FadeTick::Done
            } else {
                *f = Fade::In { step: s, steps };
                FadeTick::Up { step: s, steps }
            }
        },
    }
}

/// Where a fade of `n` steps toward `path` stands after `k` ticks: `k` steps
/// down the ramp, then `k - n` steps up it, then over.
proof fn lemma_ticks_from_start(path: String, hint: i64, n: u32, k: nat)
    requires
        1 <= n,
        k <= 2 * n,
    ensures
        k < n ==> ticks(Fade::Out { step: 0, steps: n, path, hint }, k) == (Fade::Out { step: k as u32, steps: n, path, hint }),
        n <= k < 2 * n ==> ticks(Fade::Out { step: 0, steps: n, path, hint }, k) == (Fade::In { step: (k - n) as u32, steps: n }),
        k == 2 * n ==> ticks(Fade::Out { step: 0, steps: n, path, hint }, k) is Idle,
    decreases k,
{
    if k > 0 {
        lemma_ticks_from_start(path, hint, n, (k - 1) as nat);
    }
}

/// A crossfade of `n` steps runs its course in `2n` ticks: ticks `1` to
/// `n - 1` step the old track down, tick `n` switches to the new track,
/// ticks `n + 1` to `2n - 1` step it up, tick `2n` restores the volume and
/// ends the fade, and from then on a tick asks for nothing and stops.
pub proof fn fade_runs_its_course(path: String, hint: i64, n: u32)
    requires
        1 <= n,
    ensures
        forall|j: nat| 1 <= j < n ==> #[trigger] tick_spec(ticks(Fade::Out { step: 0, steps: n, path, hint }, (j - 1) as nat)).0
            == (FadeTick::Down { step: j as u32, steps: n }),
        tick_spec(ticks(Fade::Out { step: 0, steps: n, path, hint }, (n - 1) as nat)).0
            == (FadeTick::Switch { step: n, steps: n, path, hint }),
        forall|j: nat| n < j < 2 * n ==> #[trigger] tick_spec(ticks(Fade::Out { step: 0, steps: n, path, hint }, (j - 1) as nat)).0
            == (FadeTick::Up { step: (j - n) as u32, steps: n }),
        tick_spec(ticks(Fade::Out { step: 0, steps: n, path, hint }, (2 * n - 1) as nat)).0 is Done,
        ticks(Fade::Out { step: 0, steps: n, path, hint }, 2 * n as nat) is Idle,
        tick_spec(Fade::Idle) == (FadeTick::Stopped, Fade::Idle),
{
    let f0 = Fade::Out { step: 0, steps: n, path, hint };
    assert forall|j: nat| 1 <= j < n implies #[trigger] tick_spec(ticks(f0, (j - 1) as nat)).0
        == (FadeTick::Down { step: j as u32, steps: n }) by {
        lemma_ticks_from_start(path, hint, n, (j - 1) as nat);
    }
    lemma_ticks_from_start(path, hint, n, (n - 1) as nat);
    assert forall|j: nat| n < j < 2 * n implies #[trigger] tick_spec(ticks(f0, (j - 1) as nat)).0
        == (FadeTick::Up { step: (j - n) as u32, steps: n }) by {
        lemma_ticks_from_start(path, hint, n, (j - 1) as nat);
    }
    lemma_ticks_from_start(path, hint, n, (2 * n - 1) as nat);
    lemma_ticks_from_start(path, hint, n, 2 * n as nat);
}

/// The new track would not start: the fade is over.
pub fn abort_fade(f: &mut Fade)
    ensures
        *final(f) is Idle,
{
    *f = Fade::Idle;
}

/// What settling an interrupted fade asks of the engine.
pub enum Settle {
    Nothing,
    /// A ramp down that never switched: start its track now, at the user's
    /// volume.
    PlayNow { path: String, hint: i64 },
    /// A ramp up cut short: the raw volume goes back to the user's.
    RestoreVolume,
}

/// A fade interrupted by pause or stop: the queue and the speakers must not
/// disagree, so a pending switch happens at once. The fade is over after.
pub fn settle_fade(f: &mut Fade) -> (r: Settle)
    ensures
        *final(f) is Idle,
        match *old(f) {
            Fade::Idle => r is Nothing,
            Fade::Out { path, hint, .. } => r matches Settle::PlayNow { path: p, hint: h } && p@ == path@ && h == hint,
            Fade::In { .. } => r is RestoreVolume,
        },
{
    let mut cur = Fade::Idle;
    std::mem::swap(&mut cur, f);
    match cur {
        Fade::Idle => Settle::Nothing,
        Fade::Out { path, hint, .. } => Settle::PlayNow { path, hint },
        Fade::In { .. } => Settle::RestoreVolume,
    }
}

/// The number of 25 ms steps in half a crossfade of `half_ms`, at least one.
pub open spec fn steps_for(half_ms: u32) -> u32 {
    if half_ms / 25 >= 1 { (half_ms / 25) as u32 } else { 1 }
}

/// A fade's ramp lasts half the crossfade, in whole 25 ms ticks: never
/// less than one tick, and otherwise as many whole ticks as fit in
/// `half_ms` (so a 2 s crossfade ramps for forty ticks each way).
pub proof fn ramp_lasts_half_the_fade(half_ms: u32)
    ensures
        steps_for(half_ms) >= 1,
        half_ms >= 25 ==> steps_for(half_ms) * 25 <= half_ms < (steps_for(half_ms) + 1) * 25,
        half_ms < 25 ==> steps_for(half_ms) == 1,
{
}

/// How a track starts.
#[derive(Clone, Copy, Debug, PartialEq, Eq, Structural)]
pub enum Start {
    /// Fade the sounding track out first; wake the fade timer.
    Fade,
    /// Play it now, with no fade.
    Now,
}

/// The one place a track starts. A fade is a transition, so it happens only
/// when fading on track change is on, the fade is longer than zero and
/// something is audible; `half_ms` is half the fade in milliseconds.
pub fn start_track(f: &mut Fade, path: String, hint: i64, fade_on_change: bool, fade_positive: bool, playing: bool, half_ms: u32) -> (r: Start)
    ensures
        final(f).wf(),
        (fade_on_change && fade_positive && playing) ==> (r == Start::Fade
            && (*final(f) matches Fade::Out { step, steps, path: p, hint: h } && step == 0 && steps == steps_for(half_ms)
                && p@ == path@ && h == hint)),
        !(fade_on_change && fade_positive && playing) ==> r == Start::Now && *final(f) is Idle,
{
    if fade_on_change && fade_positive && playing {
        let q = half_ms / 25;
        let steps: u32 = if q >= 1 { q } else { 1 };
        *f = Fade::Out { step: 0, steps, path, hint };
        Start::Fade
    } else {
        *f = Fade::Idle;
        Start::Now
    }
}

/// Stopping ends any fade.
pub fn stop(f: &mut Fade)
    ensures
        *final(f) is Idle,
{
    *f = Fade::Idle;
}

/// Where a seek lands: clamped to the known duration.
pub fn seek_target(ms: u64, duration_ms: u64) -> (r: u64)
    ensures
        r == (if ms < duration_ms { ms } else { duration_ms }),
{
    if ms < duration_ms { ms } else { duration_ms }
}

/// How the queue takes its edited list: keeping hold of the playing track by
/// its id, or from scratch with nothing current.
pub enum ContextChange {
    Update { current_id: String },
    Fresh,
}

pub open spec fn change_view(c: ContextChange) -> Option<Seq<char>> {
    match c {
        ContextChange::Update { current_id } => Some(current_id@),
        ContextChange::Fresh => None,
    }
}

/// Appends a batch at the end of the queue, without touching what plays.
/// `None` (and no change) for an empty batch.
pub fn enqueue_many<T>(tracks: &mut Vec<T>, more: Vec<T>, current: Option<String>) -> (r: Option<ContextChange>)
    ensures
        more@.len() == 0 ==> r is None && final(tracks)@ == old(tracks)@,
        more@.len() > 0 ==> (r matches Some(c) && change_view(c) == (match current {
            Some(id) => Some(id@),
            None => None::<Seq<char>>,
        })) && final(tracks)@ == old(tracks)@ + more@,
{
    if more.len() == 0 {
        return None;
    }
    let mut more = more;
    tracks.append(&mut more);
    match current {
        Some(id) => Some(ContextChange::Update { current_id: id }),
        None => Some(ContextChange::Fresh),
    }
}

/// Whether `id` is among `ids`.
pub open spec fn has_id(ids: Seq<String>, id: Seq<char>) -> bool {
    exists|i: int| 0 <= i < ids.len() && (#[trigger] ids[i])@ == id
}

fn contains_id(ids: &Vec<String>, id: &String) -> (r: bool)
    ensures
        r == has_id(ids@, id@),
{
    let mut i: usize = 0;
    while i < ids.len()
        invariant
            i <= ids.len(),
            forall|j: int| 0 <= j < i ==> (#[trigger] ids@[j])@ != id@,
        decreases ids.len() - i,
    {
        if ids[i] == *id {
            return true;
        }
        i += 1;
    }
    false
}

/// Takes the row at `index` out of the queue (`ids` are the rows' track ids,
/// in order). The playing track keeps playing: the queue keeps hold of it if
/// it is still listed, else takes the list from scratch. `None` (and no
/// change) for an index past the end.
pub fn remove_from_queue<T>(tracks: &mut Vec<T>, ids: &mut Vec<String>, index: usize, current: Option<String>) -> (r: Option<ContextChange>)
    requires
        old(ids)@.len() == old(tracks)@.len(),
    ensures
        final(ids)@.len() == final(tracks)@.len(),
        index >= old(tracks)@.len() ==> r is None && final(tracks)@ == old(tracks)@ && final(ids)@ == old(ids)@,
        index < old(tracks)@.len() ==> ({
            &&& final(tracks)@ == old(tracks)@.remove(index as int)
            &&& final(ids)@ == old(ids)@.remove(index as int)
            &&& r matches Some(c)
            &&& change_view(c) == (match current {
                Some(id) => if has_id(final(ids)@, id@) { Some(id@) } else { None::<Seq<char>> },
                None => None::<Seq<char>>,
            })
        }),
{
    if index >= tracks.len() {
        return None;
    }
    tracks.remove(index);
    ids.remove(index);
    match current {
        Some(id) => {
            if contains_id(ids, &id) {
                Some(ContextChange::Update { current_id: id })
            } else {
                Some(ContextChange::Fresh)
            }
        },
        None => Some(ContextChange::Fresh),
    }
}

/// Where a moved row lands: `to`, but no further than the last row.
pub open spec fn landing(len: int, to: int) -> int {
    if to < len - 1 { to } else { len - 1 }
}

/// The list with the row at `from` moved to `to` (see `landing`).
pub open spec fn moved<T>(s: Seq<T>, from: int, to: int) -> Seq<T> {
    s.remove(from).insert(landing(s.len() as int, to), s[from])
}

/// Moves a row to another place in the queue; the playing track keeps
/// playing wherever it lands. `None` (and no change) when `from` is past the
/// end or equals `to`.
pub fn reorder<T>(tracks: &mut Vec<T>, from: usize, to: usize, current: Option<String>) -> (r: Option<ContextChange>)
    ensures
        (from >= old(tracks)@.len() || from == to) ==> r is None && final(tracks)@ == old(tracks)@,
        !(from >= old(tracks)@.len() || from == to) ==> ({
            &&& final(tracks)@ == moved(old(tracks)@, from as int, to as int)
            &&& r matches Some(c)
            &&& change_view(c) == (match current {
                Some(id) => Some(id@),
                None => None::<Seq<char>>,
            })
        }),
{
    if from >= tracks.len() || from == to {
        return None;
    }
    let last = tracks.len() - 1;
    let to = if to < last { to } else { last };
    let track = tracks.remove(from);
    tracks.insert(to, track);
    match current {
        Some(id) => Some(ContextChange::Update { current_id: id }),
        None => Some(ContextChange::Fresh),
    }
}

/// Moving a row keeps every track: the list after is a rearrangement of the
/// list before, and the moved track sits where it landed.
pub proof fn reorder_keeps_tracks<T>(s: Seq<T>, from: int, to: int)
    requires
        0 <= from < s.len(),
        0 <= to,
    ensures
        moved(s, from, to).len() == s.len(),
        moved(s, from, to).to_multiset() =~= s.to_multiset(),
        moved(s, from, to)[landing(s.len() as int, to)] == s[from],
{
    let t = landing(s.len() as int, to);
    let r = s.remove(from);
    r.to_multiset_ensures();
    s.to_multiset_ensures();
    broadcast use vstd::seq_lib::group_seq_properties;
    assert(s =~= s.subrange(0, from).push(s[from]) + s.subrange(from + 1, s.len() as int));
    assert(r =~= s.subrange(0, from) + s.subrange(from + 1, s.len() as int));
    vstd::seq_lib::lemma_multiset_commutative(s.subrange(0, from).push(s[from]), s.subrange(from + 1, s.len() as int));
    vstd::seq_lib::lemma_multiset_commutative(s.subrange(0, from), s.subrange(from + 1, s.len() as int));
    let m = r.insert(t, s[from]);
    assert(m =~= r.subrange(0, t).push(s[from]) + r.subrange(t, r.len() as int));
    assert(r =~= r.subrange(0, t) + r.subrange(t, r.len() as int));
    vstd::seq_lib::lemma_multiset_commutative(r.subrange(0, t).push(s[from]), r.subrange(t, r.len() as int));
    vstd::seq_lib::lemma_multiset_commutative(r.subrange(0, t), r.subrange(t, r.len() as int));
}

/// Moving a row back from where it landed to where it was restores the list.
pub proof fn reorder_undone<T>(s: Seq<T>, from: int, to: int)
    requires
        0 <= from < s.len(),
        0 <= to,
    ensures
        moved(moved(s, from, to), landing(s.len() as int, to), from) =~= s,
{
    let t = landing(s.len() as int, to);
    let m = moved(s, from, to);
    assert(m.remove(t) =~= s.remove(from));
    assert(landing(m.len() as int, from) == from);
    assert(s.remove(from).insert(from, s[from]) =~= s);
}

} // verus!
