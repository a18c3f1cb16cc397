use hyprrun::state::{Session, State};

fn s(x: &str) -> String {
    x.to_string()
}

fn list(st: &State, cmd: &str) -> Option<Vec<String>> {
    st.entries()
        .iter()
        .find(|(k, _)| k == cmd)
        .map(|(_, v)| v.clone())
}

#[test]
fn empty_state_has_no_window() {
    let st = State::new();
    assert_eq!(st.get_next_window("firefox", None), None);
    assert_eq!(State::default().entries().len(), 0);
}

#[test]
fn add_then_raise_first() {
    let mut st = State::new();
    st.add_window("firefox", s("0x1"));
    assert_eq!(st.get_next_window("firefox", None), Some(s("0x1")));
    assert_eq!(st.get_next_window("kitty", None), None);
}

#[test]
fn add_is_idempotent_and_keeps_order() {
    let mut st = State::new();
    st.add_window("kitty", s("0x1"));
    st.add_window("kitty", s("0x2"));
    st.add_window("kitty", s("0x1"));
    assert_eq!(list(&st, "kitty"), Some(vec![s("0x1"), s("0x2")]));
    assert_eq!(st.entries().len(), 1);
}

#[test]
fn focus_cycles_through_windows() {
    let mut st = State::new();
    st.add_window("kitty", s("a"));
    st.add_window("kitty", s("b"));
    st.add_window("kitty", s("c"));
    assert_eq!(st.get_next_window("kitty", Some("a")), Some(s("b")));
    assert_eq!(st.get_next_window("kitty", Some("b")), Some(s("c")));
    assert_eq!(st.get_next_window("kitty", Some("c")), Some(s("a")));
    // focus elsewhere: first window
    assert_eq!(st.get_next_window("kitty", Some("zzz")), Some(s("a")));
    assert_eq!(st.get_next_window("kitty", None), Some(s("a")));
}

#[test]
fn remove_window_forgets_and_drops_empty_command() {
    let mut st = State::new();
    st.add_window("kitty", s("a"));
    st.add_window("kitty", s("b"));
    st.add_window("firefox", s("a"));
    st.remove_window("kitty", "a");
    assert_eq!(list(&st, "kitty"), Some(vec![s("b")]));
    assert_eq!(list(&st, "firefox"), Some(vec![s("a")]));
    st.remove_window("kitty", "b");
    assert_eq!(list(&st, "kitty"), None);
    assert_eq!(st.get_next_window("kitty", None), None);
    // unknown command or address: no change
    st.remove_window("nope", "a");
    st.remove_window("firefox", "zz");
    assert_eq!(list(&st, "firefox"), Some(vec![s("a")]));
}

#[test]
fn remove_undoes_add() {
    let mut st = State::new();
    st.add_window("kitty", s("a"));
    st.add_window("kitty", s("b"));
    st.remove_window("kitty", "b");
    assert_eq!(list(&st, "kitty"), Some(vec![s("a")]));
    st.remove_window("kitty", "a");
    assert_eq!(st.entries().len(), 0);
}

#[test]
fn remove_by_address_clears_every_command() {
    let mut st = State::new();
    st.add_window("kitty", s("a"));
    st.add_window("kitty", s("b"));
    st.add_window("firefox", s("a"));
    st.add_window("emacs", s("c"));
    st.remove_window_by_address("a");
    assert_eq!(list(&st, "kitty"), Some(vec![s("b")]));
    assert_eq!(list(&st, "firefox"), None);
    assert_eq!(list(&st, "emacs"), Some(vec![s("c")]));
    assert_eq!(st.entries().len(), 2);
}

#[test]
fn failed_focus_loop_ends() {
    // The launcher drops every window it cannot focus; the list must run out.
    let mut st = State::new();
    st.add_window("kitty", s("a"));
    st.add_window("kitty", s("b"));
    let mut tries = 0;
    while let Some(t) = st.get_next_window("kitty", Some("a")) {
        st.remove_window("kitty", &t);
        tries += 1;
        assert!(tries <= 2);
    }
    assert_eq!(tries, 2);
}

#[test]
fn entries_round_trip_and_later_entry_wins() {
    let st = State::from_entries(vec![
        (s("kitty"), vec![s("a")]),
        (s("firefox"), vec![s("b"), s("c")]),
        (s("kitty"), vec![s("d")]),
    ]);
    assert_eq!(st.entries().len(), 2);
    assert_eq!(list(&st, "kitty"), Some(vec![s("d")]));
    assert_eq!(list(&st, "firefox"), Some(vec![s("b"), s("c")]));
    let again = State::from_entries(st.entries().clone());
    assert_eq!(again.entries(), st.entries());
}

#[test]
fn loaded_empty_list_gives_no_window() {
    let st = State::from_entries(vec![(s("kitty"), vec![])]);
    assert_eq!(st.get_next_window("kitty", None), None);
    let mut st2 = State::from_entries(vec![(s("kitty"), vec![]), (s("vim"), vec![s("x")])]);
    st2.remove_window_by_address("nothing");
    assert_eq!(list(&st2, "kitty"), None);
    assert_eq!(list(&st2, "vim"), Some(vec![s("x")]));
}

#[test]
fn empty_session() {
    assert!(Session::default().entries.is_empty());
}

#[test]
fn successive_picks_reach_each_window_once() {
    let mut st = State::new();
    for a in ["w0", "w1", "w2", "w3"] {
        st.add_window("kitty", s(a));
    }
    let mut f = s("w2");
    let mut seen = vec![f.clone()];
    for _ in 0..3 {
        f = st.get_next_window("kitty", Some(&f)).unwrap();
        assert!(!seen.contains(&f));
        seen.push(f.clone());
    }
    assert_eq!(seen, vec![s("w2"), s("w3"), s("w0"), s("w1")]);
    assert_eq!(st.get_next_window("kitty", Some(&f)), Some(s("w2")));
}
