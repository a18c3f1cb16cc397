use hyprrun::run::{step, Action, Event, Phase, POLL_INTERVAL_MS, POLL_TIMEOUT_MS, SETTLE_MS};
use hyprrun::state::State;

fn s(x: &str) -> String {
    x.to_string()
}

fn strs(v: &[&str]) -> Vec<String> {
    v.iter().map(|x| x.to_string()).collect()
}

fn list(st: &State, cmd: &str) -> Option<Vec<String>> {
    st.entries()
        .iter()
        .find(|(k, _)| k == cmd)
        .map(|(_, v)| v.clone())
}

#[test]
fn start_raises_next_window() {
    let mut st = State::new();
    st.add_window("kitty", s("a"));
    st.add_window("kitty", s("b"));
    let (p, a) = step(&mut st, "kitty", false, Some("a"), Phase::Raising, Event::Start);
    assert!(matches!(p, Phase::Raising));
    assert!(matches!(a, Action::Focus(ref x) if x == "b"));
    let (p, a) = step(&mut st, "kitty", false, None, Phase::Raising, Event::Start);
    assert!(matches!(p, Phase::Raising));
    assert!(matches!(a, Action::Focus(ref x) if x == "a"));
}

#[test]
fn start_launches_when_forced_or_nothing_recorded() {
    let mut st = State::new();
    st.add_window("kitty", s("a"));
    let (p, a) = step(&mut st, "kitty", true, None, Phase::Raising, Event::Start);
    assert!(matches!(p, Phase::Launching));
    assert!(matches!(a, Action::Launch));
    let (p, a) = step(&mut st, "firefox", false, None, Phase::Raising, Event::Start);
    assert!(matches!(p, Phase::Launching));
    assert!(matches!(a, Action::Launch));
}

#[test]
fn focused_window_finishes() {
    let mut st = State::new();
    st.add_window("kitty", s("a"));
    let ev = Event::Focused {
        address: s("a"),
        ok: true,
    };
    let (p, a) = step(&mut st, "kitty", false, None, Phase::Raising, ev);
    assert!(matches!(p, Phase::Done));
    assert!(matches!(a, Action::Finish));
    assert_eq!(list(&st, "kitty"), Some(strs(&["a"])));
}

#[test]
fn gone_windows_are_dropped_until_launch() {
    let mut st = State::new();
    st.add_window("kitty", s("a"));
    st.add_window("kitty", s("b"));
    let (p, a) = step(
        &mut st,
        "kitty",
        false,
        Some("a"),
        Phase::Raising,
        Event::Focused {
            address: s("b"),
            ok: false,
        },
    );
    assert!(matches!(a, Action::Save));
    assert_eq!(list(&st, "kitty"), Some(strs(&["a"])));
    let (p, a) = step(&mut st, "kitty", false, Some("a"), p, Event::Saved);
    assert!(matches!(a, Action::Focus(ref x) if x == "a"));
    let (p, a) = step(
        &mut st,
        "kitty",
        false,
        Some("a"),
        p,
        Event::Focused {
            address: s("a"),
            ok: false,
        },
    );
    assert!(matches!(a, Action::Save));
    assert_eq!(list(&st, "kitty"), None);
    let (p, a) = step(&mut st, "kitty", false, Some("a"), p, Event::Saved);
    assert!(matches!(p, Phase::Launching));
    assert!(matches!(a, Action::Launch));
}

#[test]
fn launch_polls_settles_and_records() {
    let mut st = State::new();
    let (p, a) = step(
        &mut st,
        "kitty",
        false,
        None,
        Phase::Launching,
        Event::Launched {
            before: Some(strs(&["x"])),
        },
    );
    assert!(matches!(a, Action::SnapshotAfter(ms) if ms == POLL_INTERVAL_MS));
    assert_eq!(POLL_INTERVAL_MS, 100);
    // nothing new yet: keep polling
    let (p, a) = step(
        &mut st,
        "kitty",
        false,
        None,
        p,
        Event::Snapshot {
            windows: Some(strs(&["x"])),
            elapsed_ms: 150,
        },
    );
    assert!(matches!(a, Action::SnapshotAfter(100)));
    // a failed snapshot also keeps polling
    let (p, a) = step(
        &mut st,
        "kitty",
        false,
        None,
        p,
        Event::Snapshot {
            windows: None,
            elapsed_ms: 300,
        },
    );
    assert!(matches!(a, Action::SnapshotAfter(100)));
    // a new window: settle
    let (p, a) = step(
        &mut st,
        "kitty",
        false,
        None,
        p,
        Event::Snapshot {
            windows: Some(strs(&["y", "x"])),
            elapsed_ms: 450,
        },
    );
    assert!(matches!(p, Phase::Settling { .. }));
    assert!(matches!(a, Action::SnapshotAfter(ms) if ms == SETTLE_MS));
    assert_eq!(SETTLE_MS, 400);
    let (p, a) = step(
        &mut st,
        "kitty",
        false,
        None,
        p,
        Event::Snapshot {
            windows: Some(strs(&["y", "x", "z"])),
            elapsed_ms: 900,
        },
    );
    assert!(matches!(p, Phase::Done));
    assert!(matches!(a, Action::SaveAndFinish));
    assert_eq!(list(&st, "kitty"), Some(strs(&["y", "z"])));
}

#[test]
fn settling_without_snapshot_uses_last_one() {
    let mut st = State::new();
    let (_, a) = step(
        &mut st,
        "kitty",
        false,
        None,
        Phase::Settling {
            before: strs(&["x"]),
            last: strs(&["x", "y"]),
        },
        Event::Snapshot {
            windows: None,
            elapsed_ms: 10,
        },
    );
    assert!(matches!(a, Action::SaveAndFinish));
    assert_eq!(list(&st, "kitty"), Some(strs(&["y"])));
}

#[test]
fn polling_gives_up_after_timeout() {
    let mut st = State::new();
    assert_eq!(POLL_TIMEOUT_MS, 5000);
    let (p, a) = step(
        &mut st,
        "kitty",
        false,
        None,
        Phase::Polling { before: vec![] },
        Event::Snapshot {
            windows: Some(vec![]),
            elapsed_ms: 5000,
        },
    );
    assert!(matches!(p, Phase::Done));
    assert!(matches!(a, Action::GiveUp));
}

#[test]
fn unexpected_event_finishes_without_change() {
    let mut st = State::new();
    st.add_window("kitty", s("a"));
    let (p, a) = step(&mut st, "kitty", false, None, Phase::Done, Event::Start);
    assert!(matches!(p, Phase::Done));
    assert!(matches!(a, Action::Finish));
    assert_eq!(list(&st, "kitty"), Some(strs(&["a"])));
}
