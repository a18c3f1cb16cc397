//! The run-or-raise decision: raise a recorded window of the command, cycle
//! past windows that are gone, and otherwise launch the command and record the
//! windows that appear.

use vstd::prelude::*;

use crate::hyprland::{fresh, new_addresses};
use crate::state::{after_add, after_remove, next_window, State, Windows};
use crate::text::addr_views;

verus! {

/// How long to wait between two snapshots while waiting for a new window.
pub const POLL_INTERVAL_MS: u64 = 100;

/// How long after the launch to keep waiting for a new window.
pub const POLL_TIMEOUT_MS: u64 = 5000;

/// How long to wait, once a new window has appeared, for more to appear.
pub const SETTLE_MS: u64 = 400;

/// Where a run stands.
#[derive(Debug)]
pub enum Phase {
    /// Trying recorded windows of the command.
    Raising,
    /// Waiting for the command to be launched.
    Launching,
    /// Launched; waiting for a window that was not there before.
    Polling { before: Vec<String> },
    /// A new window appeared; waiting a little for more.
    Settling { before: Vec<String>, last: Vec<String> },
    /// Nothing more to do.
    Done,
}

/// What the outside world reports back.
#[derive(Debug)]
pub enum Event {
    /// The run begins.
    Start,
    /// A focus attempt on `address` ended; `ok` when the window was focused.
    Focused { address: String, ok: bool },
    /// The state was saved (or the attempt failed, which does not matter here).
    Saved,
    /// The command was launched; `before` is the snapshot of window addresses
    /// taken just before, if it could be taken.
    Launched { before: Option<Vec<String>> },
    /// A snapshot of window addresses, if it could be taken, and the time
    /// since the launch.
    Snapshot { windows: Option<Vec<String>>, elapsed_ms: u64 },
}

/// What the outside world is asked to do next.
#[derive(Debug)]
pub enum Action {
    /// Focus the window at this address and report `Focused`.
    Focus(String),
    /// Save the state, ignoring a failure, and report `Saved`.
    Save,
    /// Take a snapshot of window addresses, launch the command, and report `Launched`.
    Launch,
    /// Sleep this many milliseconds, take a snapshot, and report `Snapshot`.
    SnapshotAfter(u64),
    /// Save the state; a failure fails the run. Then stop.
    SaveAndFinish,
    /// Stop: a window was raised, or nothing is left to do.
    Finish,
    /// Stop: the command was launched but no new window appeared in time.
    GiveUp,
}

/// The addresses of an optional snapshot; none when it could not be taken.
pub open spec fn snapshot_views(o: Option<Vec<String>>) -> Seq<Seq<char>> {
    match o {
        Some(v) => addr_views(v@),
        None => Seq::empty(),
    }
}

/// `m` after recording each of `addresses`, in order, for `command`.
pub open spec fn add_all(m: Windows, command: Seq<char>, addresses: Seq<Seq<char>>) -> Windows
    decreases addresses.len(),
{
    if addresses.len() == 0 {
        m
    } else {
        after_add(add_all(m, command, addresses.drop_last()), command, addresses.last())
    }
}

/// The choice between raising and launching: the window that `next_window`
/// picks is focused, unless a new instance is forced or no window is left,
/// and then the command is launched.
pub open spec fn raise_or_launch(
    m: Windows,
    command: Seq<char>,
    new: bool,
    focus: Option<Seq<char>>,
    phase: Phase,
    action: Action,
) -> bool {
    match (if new {
        None
    } else {
        next_window(m, command, focus)
    }) {
        Some(x) => phase is Raising && (action matches Action::Focus(a) && a@ == x),
        None => phase is Launching && action is Launch,
    }
}

/// The command is launched only when a new instance is forced or no recorded
/// window of it is left; otherwise one of its recorded windows is focused.
pub proof fn law_launch_only_when_none_left(
    m: Windows,
    command: Seq<char>,
    new: bool,
    focus: Option<Seq<char>>,
    phase: Phase,
    action: Action,
)
    requires
        raise_or_launch(m, command, new, focus, phase, action),
    ensures
        action is Launch ==> new || !m.contains_key(command) || m[command].len() == 0,
        action matches Action::Focus(a) ==> m.contains_key(command) && m[command].contains(a@),
{
    crate::state::law_next_is_recorded(m, command, focus);
}

/// The optional focus as text.
pub open spec fn focus_view(focus: Option<&str>) -> Option<Seq<char>> {
    match focus {
        Some(f) => Some(f@),
        None => None,
    }
}

/// One step of a run of `command`: from the phase and the event just
/// reported, update the state and give the next phase and action. `new`
/// forces a launch; `focus` is the window that was focused when the run began.
pub fn step(
    state: &mut State,
    command: &str,
    new: bool,
    focus: Option<&str>,
    phase: Phase,
    event: Event,
) -> (r: (Phase, Action))
    ensures
        match (phase, event) {
            (Phase::Raising, Event::Start) => final(state)@ == old(state)@ && raise_or_launch(
                old(state)@,
                command@,
                new,
                focus_view(focus),
                r.0,
                r.1,
            ),
            (Phase::Raising, Event::Focused { address, ok }) => if ok {
                final(state)@ == old(state)@ && r.0 is Done && r.1 is Finish
            } else {
                final(state)@ == after_remove(old(state)@, command@, address@) && r.0 is Raising
                    && r.1 is Save
            },
            (Phase::Raising, Event::Saved) => final(state)@ == old(state)@ && raise_or_launch(
                old(state)@,
                command@,
                new,
                focus_view(focus),
                r.0,
                r.1,
            ),
            (Phase::Launching, Event::Launched { before }) => {
                &&& final(state)@ == old(state)@
                &&& (r.0 matches Phase::Polling { before: b } && addr_views(b@) == snapshot_views(
                    before,
                ))
                &&& r.1 == Action::SnapshotAfter(POLL_INTERVAL_MS)
            },
            (Phase::Polling { before }, Event::Snapshot { windows, elapsed_ms }) => {
                &&& final(state)@ == old(state)@
                &&& if windows is Some && fresh(snapshot_views(windows), addr_views(before@)).len()
                    > 0 {
                    &&& (r.0 matches Phase::Settling { before: b, last: l } && addr_views(b@)
                        == addr_views(before@) && addr_views(l@) == snapshot_views(windows))
                    &&& r.1 == Action::SnapshotAfter(SETTLE_MS)
                } else if elapsed_ms < POLL_TIMEOUT_MS {
                    &&& (r.0 matches Phase::Polling { before: b } && addr_views(b@) == addr_views(
                        before@,
                    ))
                    &&& r.1 == Action::SnapshotAfter(POLL_INTERVAL_MS)
                } else {
                    r.0 is Done && r.1 is GiveUp
                }
            },
            (Phase::Settling { before, last }, Event::Snapshot { windows, elapsed_ms }) =>
                final(state)@ == add_all(
                old(state)@,
                command@,
                fresh(
                    if windows is Some {
                        snapshot_views(windows)
                    } else {
                        addr_views(last@)
                    },
                    addr_views(before@),
                ),
            ) && r.0 is Done && r.1 is SaveAndFinish,
            _ => final(state)@ == old(state)@ && r.0 is Done && r.1 is Finish,
        },
{
    match (phase, event) {
        (Phase::Raising, Event::Start) => raise_or_launch_exec(state, command, new, focus),
        (Phase::Raising, Event::Focused { address, ok }) => {
            if ok {
                (Phase::Done, Action::Finish)
            } else {
                state.remove_window(command, address.as_str());
                (Phase::Raising, Action::Save)
            }
        },
        (Phase::Raising, Event::Saved) => raise_or_launch_exec(state, command, new, focus),
        (Phase::Launching, Event::Launched { before }) => {
            let b = match before {
                Some(v) => v,
                None => Vec::new(),
            };
            assert(addr_views(b@) =~= snapshot_views(before));
            (Phase::Polling { before: b }, Action::SnapshotAfter(POLL_INTERVAL_MS))
        },
        (Phase::Polling { before }, Event::Snapshot { windows, elapsed_ms }) => {
            match windows {
                Some(after) => {
                    let appeared = new_addresses(&before, &after);
                    if appeared.len() > 0 {
                        return (
                            Phase::Settling { before, last: after },
                            Action::SnapshotAfter(SETTLE_MS),
                        );
                    }
                },
                None => {},
            }
            if elapsed_ms < POLL_TIMEOUT_MS {
                (Phase::Polling { before }, Action::SnapshotAfter(POLL_INTERVAL_MS))
            } else {
                (Phase::Done, Action::GiveUp)
            }
        },
        (Phase::Settling { before, last }, Event::Snapshot { windows, elapsed_ms }) => {
            let latest = match windows {
                Some(v) => v,
                None => last,
            };
            let appeared = new_addresses(&before, &latest);
            record_all(state, command, &appeared);
            (Phase::Done, Action::SaveAndFinish)
        },
        _ => (Phase::Done, Action::Finish),
    }
}

fn raise_or_launch_exec(state: &State, command: &str, new: bool, focus: Option<&str>) -> (r: (
    Phase,
    Action,
))
    ensures
        raise_or_launch(state@, command@, new, focus_view(focus), r.0, r.1),
{
    if new {
        return (Phase::Launching, Action::Launch);
    }
    match state.get_next_window(command, focus) {
        Some(target) => (Phase::Raising, Action::Focus(target)),
        None => (Phase::Launching, Action::Launch),
    }
}

/// Records each of `addresses`, in order, as a window of `command`.
fn record_all(state: &mut State, command: &str, addresses: &Vec<String>)
    ensures
        final(state)@ == add_all(old(state)@, command@, addr_views(addresses@)),
{
    let ghost start = state@;
    let mut i: usize = 0;
    while i < addresses.len()
        invariant
            i <= addresses.len(),
            state@ == add_all(start, command@, addr_views(addresses@).take(i as int)),
        decreases addresses.len() - i,
    {
        let ghost prev = addr_views(addresses@).take(i as int);
        assert(addr_views(addresses@).take(i + 1).drop_last() =~= prev);
        assert(addr_views(addresses@).take(i + 1).last() == addresses@[i as int]@);
        state.add_window(command, addresses[i].clone());
        i += 1;
    }
    assert(addr_views(addresses@).take(addresses.len() as int) =~= addr_views(addresses@));
}

} // verus!
