//! Global shortcuts through the XDG GlobalShortcuts portal: the shortcuts
//! registered, what an activation asks of the player, and what the settings
//! row says when the portal refuses.

use vstd::prelude::*;
use crate::text::{decimal, decimal_u64, fill, replace_spec, str_eq, string_of};

verus! {

/// What a shortcut asks of the player, or what the portal says about them.
pub enum Msg {
    /// The row's label: "sí", or why not.
    Status(String),
    PlayPause,
    Next,
    Prev,
}

/// One registered shortcut: its permanent id, its description (the Spanish
/// source of the localised text the desktop shows), and the trigger it
/// suggests.
pub struct ShortcutDef {
    pub id: &'static str,
    pub description: &'static str,
    pub trigger: &'static str,
}

/// The shortcuts registered with the portal. The ids are permanent: the
/// desktop remembers bindings by them.
pub open spec fn shortcut_table() -> Seq<(Seq<char>, Seq<char>, Seq<char>)> {
    seq![
        ("play-pause"@, "Reproducir/Pausa"@, "CTRL+ALT+SPACE"@),
        ("next"@, "Siguiente pista"@, "CTRL+ALT+n"@),
        ("prev"@, "Pista anterior"@, "CTRL+ALT+b"@),
    ]
}

/// The shortcuts to bind, in order.
pub fn shortcut_defs() -> (r: Vec<ShortcutDef>)
    ensures
        r@.len() == shortcut_table().len(),
        forall|i: int| 0 <= i < r@.len() ==> (#[trigger] r@[i]).id@ == shortcut_table()[i].0
            && r@[i].description@ == shortcut_table()[i].1 && r@[i].trigger@ == shortcut_table()[i].2,
{
    let mut r: Vec<ShortcutDef> = Vec::new();
    r.push(ShortcutDef { id: "play-pause", description: "Reproducir/Pausa", trigger: "CTRL+ALT+SPACE" });
    r.push(ShortcutDef { id: "next", description: "Siguiente pista", trigger: "CTRL+ALT+n" });
    r.push(ShortcutDef { id: "prev", description: "Pista anterior", trigger: "CTRL+ALT+b" });
    r
}

/// What the player is asked for when the desktop activates a shortcut.
pub enum Action {
    PlayPause,
    Next,
    Prev,
}

/// The action for shortcut `id` activated while the row is on (`forward`)
/// or off.
pub open spec fn activation_spec(id: Seq<char>, forward: bool) -> Option<Action> {
    if !forward {
        None
    } else if id == "play-pause"@ {
        Some(Action::PlayPause)
    } else if id == "next"@ {
        Some(Action::Next)
    } else if id == "prev"@ {
        Some(Action::Prev)
    } else {
        None
    }
}

/// The action for an activated shortcut id; none while the row is off
/// (`forward` false) or for an id that is not ours.
pub fn activation(id: &str, forward: bool) -> (r: Option<Action>)
    ensures
        r == activation_spec(id@, forward),
        !forward ==> r is None,
        forward ==> (if id@ == "play-pause"@ {
            r matches Some(Action::PlayPause)
        } else if id@ == "next"@ {
            r matches Some(Action::Next)
        } else if id@ == "prev"@ {
            r matches Some(Action::Prev)
        } else {
            r is None
        }),
{
    if !forward {
        return None;
    }
    if str_eq(id, "play-pause") {
        Some(Action::PlayPause)
    } else if str_eq(id, "next") {
        Some(Action::Next)
    } else if str_eq(id, "prev") {
        Some(Action::Prev)
    } else {
        None
    }
}

/// The message for an action.
pub open spec fn msg_for(a: Action) -> Msg {
    match a {
        Action::PlayPause => Msg::PlayPause,
        Action::Next => Msg::Next,
        Action::Prev => Msg::Prev,
    }
}

/// The messages sent for a run of `Activated` signals, each its id and
/// whether the row was on when it arrived: in arrival order, one for each
/// that asks for an action.
pub open spec fn activation_msgs(acts: Seq<(Seq<char>, bool)>) -> Seq<Msg>
    decreases acts.len(),
{
    if acts.len() == 0 {
        Seq::empty()
    } else {
        let before = activation_msgs(acts.drop_last());
        match activation_spec(acts.last().0, acts.last().1) {
            Some(a) => before.push(msg_for(a)),
            None => before,
        }
    }
}

/// The message an action sends to the player.
pub fn action_msg(a: Action) -> (r: Msg)
    ensures
        r == msg_for(a),
        (a is PlayPause ==> r is PlayPause),
        (a is Next ==> r is Next),
        (a is Prev ==> r is Prev),
{
    match a {
        Action::PlayPause => Msg::PlayPause,
        Action::Next => Msg::Next,
        Action::Prev => Msg::Prev,
    }
}

/// How a portal request ended, when it did not succeed.
pub enum Refusal {
    /// The user cancelled the system's binding dialog: a decision, not a
    /// malfunction.
    Cancelled,
    /// The portal answered with another non-zero code.
    Code(u32),
}

/// A `CreateSession` answer: any non-zero code refuses the session.
pub fn session_refusal(code: u32) -> (r: Option<Refusal>)
    ensures
        code == 0 ==> r is None,
        code != 0 ==> (r matches Some(Refusal::Code(c)) && c == code),
{
    if code == 0 { None } else { Some(Refusal::Code(code)) }
}

/// A `BindShortcuts` answer: 1 is the user cancelling, any other non-zero
/// code is a refusal.
pub fn bind_refusal(code: u32) -> (r: Option<Refusal>)
    ensures
        code == 0 ==> r is None,
        code == 1 ==> r matches Some(Refusal::Cancelled),
        code > 1 ==> (r matches Some(Refusal::Code(c)) && c == code),
{
    if code == 0 {
        None
    } else if code == 1 {
        Some(Refusal::Cancelled)
    } else {
        Some(Refusal::Code(code))
    }
}

/// The row's label for a refusal, from the localised texts: the cancel
/// text, or the code put into the localised "... (código {})".
pub fn refusal_label(r: &Refusal, cancelled: &str, refused_template: &str) -> (s: String)
    ensures
        (*r matches Refusal::Cancelled ==> s@ == cancelled@),
        (*r matches Refusal::Code(c) ==> s@ == replace_spec(refused_template@, "{}"@, decimal(c as nat))),
{
    match r {
        Refusal::Cancelled => cancelled.to_owned(),
        Refusal::Code(c) => {
            let d = decimal_u64(*c as u64);
            let ds = string_of(d.as_slice());
            fill(refused_template, ds.as_str())
        },
    }
}

/// Once the shortcuts are bound, the status goes out first and is the only
/// status: what follows, for any run of activations, is never a status. A
/// new activation adds its message after those of the earlier ones, or
/// nothing; activations while the row is off send nothing at all; and no
/// activation sends more than one message.
pub proof fn shortcut_messages_in_arrival_order(acts: Seq<(Seq<char>, bool)>, next: (Seq<char>, bool))
    ensures
        activation_msgs(acts.push(next)) == (match activation_spec(next.0, next.1) {
            Some(a) => activation_msgs(acts).push(msg_for(a)),
            None => activation_msgs(acts),
        }),
        forall|i: int| 0 <= i < activation_msgs(acts).len() ==> !(#[trigger] activation_msgs(acts)[i] is Status),
        (forall|i: int| 0 <= i < acts.len() ==> !(#[trigger] acts[i]).1) ==> activation_msgs(acts).len() == 0,
        activation_msgs(acts).len() <= acts.len(),
    decreases acts.len(),
{
    assert(acts.push(next).drop_last() =~= acts);
    if acts.len() > 0 {
        shortcut_messages_in_arrival_order(acts.drop_last(), acts.last());
        if forall|i: int| 0 <= i < acts.len() ==> !(#[trigger] acts[i]).1 {
            assert forall|i: int| 0 <= i < acts.drop_last().len() implies !(#[trigger] acts.drop_last()[i]).1 by {
                assert(acts.drop_last()[i] == acts[i]);
            }
            assert(!acts[acts.len() - 1].1);
        }
    }
}

/// The row's label once the shortcuts are bound.
pub fn bound_status() -> (m: Msg)
    ensures
        m matches Msg::Status(s) && s@ == "sí"@,
{
    Msg::Status("sí".to_owned())
}

} // verus!
