use tunante::player::{
    abort_fade, enqueue_many, remove_from_queue, reorder, seek_target, settle_fade, start_track, stop, tick_fade,
    ContextChange, Fade, FadeTick, Settle, Start,
};

#[test]
fn a_crossfade_ramps_down_switches_and_ramps_up() {
    let mut f = Fade::Idle;
    // 100 ms half fade: four 25 ms steps.
    assert_eq!(start_track(&mut f, "/b.psf".to_string(), 90, true, true, true, 100), Start::Fade);
    let mut downs = 0;
    loop {
        match tick_fade(&mut f) {
            FadeTick::Down { steps, .. } => {
                assert_eq!(steps, 4);
                downs += 1;
            }
            FadeTick::Switch { step, steps, path, hint } => {
                assert_eq!((step, steps, path.as_str(), hint), (4, 4, "/b.psf", 90));
                break;
            }
            _ => panic!("unexpected tick"),
        }
    }
    assert_eq!(downs, 3);
    let mut ups = 0;
    loop {
        match tick_fade(&mut f) {
            FadeTick::Up { .. } => ups += 1,
            FadeTick::Done => break,
            _ => panic!("unexpected tick"),
        }
    }
    assert_eq!(ups, 3);
    assert!(matches!(tick_fade(&mut f), FadeTick::Stopped));
}

#[test]
fn no_fade_from_silence_and_at_least_one_step() {
    let mut f = Fade::Idle;
    assert_eq!(start_track(&mut f, "/a".to_string(), 0, true, true, false, 100), Start::Now);
    assert!(matches!(f, Fade::Idle));
    assert_eq!(start_track(&mut f, "/a".to_string(), 0, true, true, true, 10), Start::Fade);
    assert!(matches!(f, Fade::Out { step: 0, steps: 1, .. }));
    assert!(matches!(tick_fade(&mut f), FadeTick::Switch { step: 1, steps: 1, .. }));
    abort_fade(&mut f);
    assert!(matches!(f, Fade::Idle));
}

#[test]
fn settling_an_interrupted_fade() {
    let mut f = Fade::Out { step: 1, steps: 4, path: "/n".to_string(), hint: 7 };
    match settle_fade(&mut f) {
        Settle::PlayNow { path, hint } => assert_eq!((path.as_str(), hint), ("/n", 7)),
        _ => panic!("a pending switch plays now"),
    }
    let mut f = Fade::In { step: 1, steps: 4 };
    assert!(matches!(settle_fade(&mut f), Settle::RestoreVolume));
    assert!(matches!(settle_fade(&mut f), Settle::Nothing));
    let mut f = Fade::In { step: 0, steps: 2 };
    stop(&mut f);
    assert!(matches!(f, Fade::Idle));
}

#[test]
fn a_seek_stops_at_the_end() {
    assert_eq!(seek_target(500, 300), 300);
    assert_eq!(seek_target(100, 300), 100);
}

#[test]
fn enqueueing_appends_and_keeps_the_current_track() {
    let mut q = vec!["a", "b"];
    assert!(enqueue_many(&mut q, Vec::new(), Some("a".to_string())).is_none());
    match enqueue_many(&mut q, vec!["c", "d"], Some("a".to_string())) {
        Some(ContextChange::Update { current_id }) => assert_eq!(current_id, "a"),
        _ => panic!("keeps the current track"),
    }
    assert_eq!(q, ["a", "b", "c", "d"]);
    assert!(matches!(enqueue_many(&mut q, vec!["e"], None), Some(ContextChange::Fresh)));
}

#[test]
fn removing_a_row_keeps_the_playing_track_if_listed() {
    let mut q = vec![10, 20, 30];
    let mut ids = vec!["x".to_string(), "y".to_string(), "z".to_string()];
    assert!(remove_from_queue(&mut q, &mut ids, 3, None).is_none());
    match remove_from_queue(&mut q, &mut ids, 0, Some("y".to_string())) {
        Some(ContextChange::Update { current_id }) => assert_eq!(current_id, "y"),
        _ => panic!("y is still listed"),
    }
    assert_eq!(q, [20, 30]);
    assert!(matches!(remove_from_queue(&mut q, &mut ids, 0, Some("y".to_string())), Some(ContextChange::Fresh)));
    assert_eq!(ids, ["z"]);
}

#[test]
fn moving_a_row_and_back_restores_the_queue() {
    let mut q = vec![1, 2, 3, 4, 5];
    assert!(reorder(&mut q, 1, 1, None).is_none());
    assert!(reorder(&mut q, 9, 0, None).is_none());
    reorder(&mut q, 1, 99, None);
    assert_eq!(q, [1, 3, 4, 5, 2]);
    reorder(&mut q, 4, 1, None);
    assert_eq!(q, [1, 2, 3, 4, 5]);
    reorder(&mut q, 3, 0, Some("k".to_string()));
    assert_eq!(q, [4, 1, 2, 3, 5]);
}
