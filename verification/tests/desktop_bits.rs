use tunante::inhibit::{inhibit_request, set_playing, take_result, InhibitStep, Inhibitor};
use tunante::nowplaying::{card_title, display_title, list_layout, queue_row_title, row_subtitle, window_title, ListSlot};
use tunante::placement::{script, script_file_name, script_name, script_object, spawn, SCRIPT_BODY};
use tunante::shortcuts::{
    action_msg, activation, bind_refusal, bound_status, refusal_label, session_refusal, shortcut_defs, Action, Msg,
    Refusal,
};
use tunante::theme::{parse_u8, prefers_dark, scheme_from_reply};
use tunante::wheel::{hook_set, hover, on_mouse, HookStep, WheelState};

#[test]
fn titles_fall_back_to_the_path() {
    assert_eq!(display_title("", "/m/a.psf"), "/m/a.psf");
    assert_eq!(display_title("Opening", "/m/a.psf"), "Opening");
    assert_eq!(window_title(Some(("Opening", "/p", "")), true), "Opening — Tunante");
    assert_eq!(window_title(Some(("", "/p", "Uematsu")), true), "/p - Uematsu — Tunante");
    assert_eq!(window_title(Some(("x", "/p", "y")), false), "");
    assert_eq!(window_title(None, true), "");
    assert_eq!(queue_row_title("", "/q.nsf"), "» /q.nsf");
    assert_eq!(card_title("", "/m/dir/file.spc"), "file.spc");
    assert_eq!(card_title("", "plain"), "plain");
    assert_eq!(card_title("T", "/m/x"), "T");
    assert_eq!(row_subtitle("", "Album"), "Album");
    assert_eq!(row_subtitle("Artist", "Album"), "Artist");
}

#[test]
fn the_list_puts_the_queue_after_the_current_track() {
    assert_eq!(
        list_layout(4, 2, Some(1)),
        vec![
            ListSlot::Context(0),
            ListSlot::Context(1),
            ListSlot::Queued { index: 0, last: false },
            ListSlot::Queued { index: 1, last: true },
            ListSlot::Context(2),
            ListSlot::Context(3),
        ]
    );
    assert_eq!(
        list_layout(2, 1, None),
        vec![ListSlot::Queued { index: 0, last: true }, ListSlot::Context(0), ListSlot::Context(1)]
    );
    assert_eq!(list_layout(2, 0, Some(7)), vec![ListSlot::Context(0), ListSlot::Context(1)]);
}

#[test]
fn shortcut_activations() {
    assert_eq!(shortcut_defs().len(), 3);
    assert_eq!(shortcut_defs()[0].id, "play-pause");
    assert!(matches!(activation("next", true), Some(Action::Next)));
    assert!(activation("next", false).is_none());
    assert!(activation("other", true).is_none());
    assert!(matches!(action_msg(Action::Prev), Msg::Prev));
    assert!(matches!(bound_status(), Msg::Status(s) if s == "sí"));
}

#[test]
fn portal_refusals_say_which_it_was() {
    assert!(session_refusal(0).is_none());
    assert!(matches!(session_refusal(1), Some(Refusal::Code(1))));
    assert!(bind_refusal(0).is_none());
    assert!(matches!(bind_refusal(1), Some(Refusal::Cancelled)));
    let r = bind_refusal(2).unwrap();
    assert_eq!(refusal_label(&r, "cancelado", "rechazado (código {})"), "rechazado (código 2)");
    assert_eq!(refusal_label(&Refusal::Cancelled, "cancelado", "x {}"), "cancelado");
}

#[test]
fn the_sleep_lock_follows_playback() {
    let mut s = Inhibitor::new(true);
    assert_eq!(set_playing(&mut s, false), InhibitStep::Nothing);
    assert_eq!(set_playing(&mut s, true), InhibitStep::Take);
    assert!(take_result(&mut s, false));
    assert!(!take_result(&mut s, false), "a refusal is reported once");
    assert_eq!(set_playing(&mut s, true), InhibitStep::Take);
    assert!(!take_result(&mut s, true));
    assert_eq!(set_playing(&mut s, true), InhibitStep::Nothing);
    assert_eq!(set_playing(&mut s, false), InhibitStep::Release);
    assert!(!s.locked);
    let mut none = Inhibitor::new(false);
    assert_eq!(set_playing(&mut none, true), InhibitStep::Nothing);
    assert_eq!(inhibit_request(), ("sleep", "Tunante mini", "Reproduciendo música", "block"));
}

#[test]
fn the_kwin_script() {
    assert!(spawn(true, Some("KDE")));
    assert!(spawn(true, Some("plasma:kde")));
    assert!(!spawn(true, Some("GNOME")));
    assert!(!spawn(false, Some("KDE")));
    assert!(!spawn(true, None));
    assert_eq!(script_name(4242), "tunante-placement-4242");
    assert_eq!(script_file_name("tunante-placement-1"), "tunante-placement-1.js");
    assert!(script(7).starts_with("var PID = 7;\n"));
    assert!(script(7).ends_with(SCRIPT_BODY));
    assert_eq!(script_object(3), Some("/Scripting/Script3".to_string()));
    assert_eq!(script_object(-1), None);
}

#[test]
fn the_wheel_adds_up_to_notches() {
    let mut s = WheelState::new();
    assert_eq!(hover(&mut s, true), HookStep::Install);
    hook_set(&mut s, true);
    assert_eq!(hover(&mut s, true), HookStep::Keep);
    // Half a notch up, twice: one notch.
    let up_half = (60u32) << 16;
    assert_eq!(on_mouse(&mut s, 0, true, true, up_half), None);
    assert_eq!(on_mouse(&mut s, 0, true, true, up_half), Some(1));
    assert_eq!(s.carry, 0);
    // One and a half notches down: one notch, half carried.
    let down = ((-180i16) as u16 as u32) << 16;
    assert_eq!(on_mouse(&mut s, 0, true, true, down), Some(-1));
    assert_eq!(s.carry, -60);
    // Elsewhere, or another message: nothing.
    assert_eq!(on_mouse(&mut s, 0, true, false, down), None);
    assert_eq!(on_mouse(&mut s, -1, true, true, down), None);
    assert_eq!(on_mouse(&mut s, 0, false, true, down), None);
    assert_eq!(s.carry, -60);
    assert_eq!(hover(&mut s, false), HookStep::Remove);
    assert_eq!(hover(&mut s, false), HookStep::Keep);
    assert_eq!(hover(&mut s, true), HookStep::Install);
    assert_eq!(s.carry, 0);
    // Three quarters up, three times: two notches over the run, a quarter
    // notch carried, and nothing reported for a message short of a notch.
    let up_three_quarters = (90u32) << 16;
    assert_eq!(on_mouse(&mut s, 0, true, true, up_three_quarters), None);
    assert_eq!(on_mouse(&mut s, 0, true, true, up_three_quarters), Some(1));
    assert_eq!(on_mouse(&mut s, 0, true, true, up_three_quarters), Some(1));
    assert_eq!(s.carry, 30);
}

#[test]
fn the_portal_scheme() {
    assert_eq!(scheme_from_reply("v u 1\n"), 1);
    assert_eq!(scheme_from_reply("v u 2"), 2);
    assert_eq!(scheme_from_reply("v u 0"), 0);
    assert_eq!(scheme_from_reply("v u +2"), 2);
    assert_eq!(scheme_from_reply("v u 258"), 0);
    assert_eq!(scheme_from_reply(""), 0);
    assert_eq!(prefers_dark(1), Some(true));
    assert_eq!(prefers_dark(2), Some(false));
    assert_eq!(prefers_dark(0), None);
    assert_eq!(parse_u8(&['2', '5', '5']), Some(255));
    assert_eq!(parse_u8(&['2', '5', '6']), None);
    assert_eq!(parse_u8(&['+']), None);
    assert_eq!(parse_u8(&['-', '1']), None);
}

#[test]
fn shortcut_messages_follow_the_activations() {
    let arrivals = [("next", true), ("other", true), ("prev", false), ("play-pause", true), ("prev", true)];
    let mut sent = vec![bound_status()];
    for (id, forward) in arrivals {
        if let Some(a) = activation(id, forward) {
            sent.push(action_msg(a));
        }
    }
    assert_eq!(sent.len(), 4);
    assert!(matches!(&sent[0], Msg::Status(s) if s == "sí"));
    assert!(matches!(sent[1], Msg::Next));
    assert!(matches!(sent[2], Msg::PlayPause));
    assert!(matches!(sent[3], Msg::Prev));
}
