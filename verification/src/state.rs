//! Which windows each launch command owns, and how focus cycles through them.

use vstd::prelude::*;

use crate::text::{addr_views, first_index, holds, lemma_first_index, lemma_first_index_at, str_eq};

verus! {

/// Commands mapped to the addresses of the windows they opened, in the order
/// the windows were recorded.
pub type Windows = Map<Seq<char>, Seq<Seq<char>>>;

/// `s` with every occurrence of `x` taken out, the rest kept in order.
pub open spec fn remove_all(s: Seq<Seq<char>>, x: Seq<char>) -> Seq<Seq<char>>
    decreases s.len(),
{
    if s.len() == 0 {
        s
    } else if s.last() == x {
        remove_all(s.drop_last(), x)
    } else {
        remove_all(s.drop_last(), x).push(s.last())
    }
}

/// The windows after `remove_window(command, address)`: the address leaves the
/// command's list, and a list left empty is dropped with its command.
pub open spec fn after_remove(m: Windows, command: Seq<char>, address: Seq<char>) -> Windows {
    if m.contains_key(command) {
        let l = remove_all(m[command], address);
        if l.len() == 0 {
            m.remove(command)
        } else {
            m.insert(command, l)
        }
    } else {
        m
    }
}

/// The windows after `remove_window_by_address(address)`: the address leaves
/// every list, and every list left empty is dropped with its command.
pub open spec fn after_remove_everywhere(m: Windows, address: Seq<char>) -> Windows {
    Map::new(
        |k: Seq<char>| m.contains_key(k) && remove_all(m[k], address).len() > 0,
        |k: Seq<char>| remove_all(m[k], address),
    )
}

/// The windows after `add_window(command, address)`: the address is appended
/// to the command's list unless it is already there.
pub open spec fn after_add(m: Windows, command: Seq<char>, address: Seq<char>) -> Windows {
    if m.contains_key(command) {
        if m[command].contains(address) {
            m
        } else {
            m.insert(command, m[command].push(address))
        }
    } else {
        m.insert(command, seq![address])
    }
}

/// The window that `get_next_window` picks: the one after the focused window
/// in the command's list (wrapping round), or the first one when the focused
/// window is not in the list or nothing is focused.
pub open spec fn next_window(m: Windows, command: Seq<char>, focus: Option<Seq<char>>) -> Option<
    Seq<char>,
> {
    if !m.contains_key(command) || m[command].len() == 0 {
        None
    } else {
        let l = m[command];
        match focus {
            Some(f) => match first_index(l, f) {
                Some(p) => Some(l[(p + 1) % (l.len() as int)]),
                None => Some(l[0]),
            },
            None => Some(l[0]),
        }
    }
}

/// The view of one stored entry.
pub open spec fn entry_view(e: (String, Vec<String>)) -> (Seq<char>, Seq<Seq<char>>) {
    (e.0@, addr_views(e.1@))
}

/// The views of the stored entries.
pub open spec fn model(w: Seq<(String, Vec<String>)>) -> Seq<(Seq<char>, Seq<Seq<char>>)> {
    w.map_values(|e: (String, Vec<String>)| entry_view(e))
}

/// No command occurs twice among the entries.
pub open spec fn keys_distinct(m: Seq<(Seq<char>, Seq<Seq<char>>)>) -> bool {
    forall|i: int, j: int| 0 <= i < j < m.len() ==> #[trigger] m[i].0 != #[trigger] m[j].0
}

/// The map that a list of entries with distinct commands stands for.
pub open spec fn to_map(m: Seq<(Seq<char>, Seq<Seq<char>>)>) -> Windows {
    Map::new(
        |k: Seq<char>| exists|i: int| 0 <= i < m.len() && m[i].0 == k,
        |k: Seq<char>| m[choose|i: int| 0 <= i < m.len() && m[i].0 == k].1,
    )
}

proof fn lemma_to_map_at(m: Seq<(Seq<char>, Seq<Seq<char>>)>, i: int)
    requires
        keys_distinct(m),
        0 <= i < m.len(),
    ensures
        to_map(m).contains_key(m[i].0),
        to_map(m)[m[i].0] == m[i].1,
{
    let k = m[i].0;
    assert(exists|j: int| 0 <= j < m.len() && m[j].0 == k);
    let j = choose|j: int| 0 <= j < m.len() && m[j].0 == k;
    if j < i {
        assert(m[j].0 != m[i].0);
    } else if i < j {
        assert(m[i].0 != m[j].0);
    }
}

proof fn lemma_to_map_absent(m: Seq<(Seq<char>, Seq<Seq<char>>)>, k: Seq<char>)
    requires
        forall|i: int| 0 <= i < m.len() ==> m[i].0 != k,
    ensures
        !to_map(m).contains_key(k),
{
}

proof fn lemma_to_map_update(
    m: Seq<(Seq<char>, Seq<Seq<char>>)>,
    i: int,
    v: Seq<Seq<char>>,
)
    requires
        keys_distinct(m),
        0 <= i < m.len(),
    ensures
        keys_distinct(m.update(i, (m[i].0, v))),
        to_map(m.update(i, (m[i].0, v))) == to_map(m).insert(m[i].0, v),
{
    let k = m[i].0;
    let n = m.update(i, (k, v));
    assert forall|a: int, b: int| 0 <= a < b < n.len() implies #[trigger] n[a].0 != #[trigger] n[b].0 by {
        assert(n[a].0 == m[a].0 && n[b].0 == m[b].0);
    }
    assert forall|x: Seq<char>| #[trigger]
        to_map(n).contains_key(x) == to_map(m).insert(k, v).contains_key(x) by {
        if to_map(n).contains_key(x) {
            let j = choose|j: int| 0 <= j < n.len() && n[j].0 == x;
            assert(m[j].0 == x);
        }
        if to_map(m).contains_key(x) {
            let j = choose|j: int| 0 <= j < m.len() && m[j].0 == x;
            assert(n[j].0 == x);
        }
    }
    assert forall|x: Seq<char>| #[trigger] to_map(n).contains_key(x) implies to_map(n)[x]
        == to_map(m).insert(k, v)[x] by {
        let j = choose|j: int| 0 <= j < n.len() && n[j].0 == x;
        lemma_to_map_at(n, j);
        if j != i {
            lemma_to_map_at(m, j);
        }
    }
    assert(to_map(n) =~= to_map(m).insert(k, v));
}

proof fn lemma_to_map_remove(m: Seq<(Seq<char>, Seq<Seq<char>>)>, i: int)
    requires
        keys_distinct(m),
        0 <= i < m.len(),
    ensures
        keys_distinct(m.remove(i)),
        to_map(m.remove(i)) == to_map(m).remove(m[i].0),
{
    let k = m[i].0;
    let n = m.remove(i);
    assert forall|a: int, b: int| 0 <= a < b < n.len() implies #[trigger] n[a].0 != #[trigger] n[b].0 by {
        let a2 = if a < i { a } else { a + 1 };
        let b2 = if b < i { b } else { b + 1 };
        assert(n[a].0 == m[a2].0 && n[b].0 == m[b2].0);
    }
    assert forall|x: Seq<char>| #[trigger]
        to_map(n).contains_key(x) == to_map(m).remove(k).contains_key(x) by {
        if to_map(n).contains_key(x) {
            let j = choose|j: int| 0 <= j < n.len() && n[j].0 == x;
            let j2 = if j < i { j } else { j + 1 };
            assert(m[j2].0 == x);
            if x == k {
                assert(m[j2].0 == m[i].0);
            }
        }
        if to_map(m).contains_key(x) && x != k {
            let j = choose|j: int| 0 <= j < m.len() && m[j].0 == x;
            let j2 = if j < i { j } else { j - 1 };
            assert(n[j2].0 == x);
        }
    }
    assert forall|x: Seq<char>| #[trigger] to_map(n).contains_key(x) implies to_map(n)[x]
        == to_map(m).remove(k)[x] by {
        let j = choose|j: int| 0 <= j < n.len() && n[j].0 == x;
        let j2 = if j < i { j } else { j + 1 };
        lemma_to_map_at(n, j);
        lemma_to_map_at(m, j2);
    }
    assert(to_map(n) =~= to_map(m).remove(k));
}

proof fn lemma_to_map_push(m: Seq<(Seq<char>, Seq<Seq<char>>)>, e: (Seq<char>, Seq<Seq<char>>))
    requires
        keys_distinct(m),
        forall|i: int| 0 <= i < m.len() ==> m[i].0 != e.0,
    ensures
        keys_distinct(m.push(e)),
        to_map(m.push(e)) == to_map(m).insert(e.0, e.1),
{
    let n = m.push(e);
    assert forall|a: int, b: int| 0 <= a < b < n.len() implies #[trigger] n[a].0 != #[trigger] n[b].0 by {
        if b == m.len() {
            assert(n[a].0 == m[a].0);
        } else {
            assert(n[a].0 == m[a].0 && n[b].0 == m[b].0);
        }
    }
    assert forall|x: Seq<char>| #[trigger]
        to_map(n).contains_key(x) == to_map(m).insert(e.0, e.1).contains_key(x) by {
        if to_map(n).contains_key(x) {
            let j = choose|j: int| 0 <= j < n.len() && n[j].0 == x;
            if j < m.len() {
                assert(m[j].0 == x);
            }
        }
        if to_map(m).contains_key(x) {
            let j = choose|j: int| 0 <= j < m.len() && m[j].0 == x;
            assert(n[j].0 == x);
        }
        if x == e.0 {
            assert(n[m.len() as int].0 == x);
        }
    }
    assert forall|x: Seq<char>| #[trigger] to_map(n).contains_key(x) implies to_map(n)[x]
        == to_map(m).insert(e.0, e.1)[x] by {
        let j = choose|j: int| 0 <= j < n.len() && n[j].0 == x;
        lemma_to_map_at(n, j);
        if j < m.len() {
            lemma_to_map_at(m, j);
        }
    }
    assert(to_map(n) =~= to_map(m).insert(e.0, e.1));
}

/// The map that deserialising `entries` into a hash map gives: a later entry
/// for a command replaces an earlier one.
pub open spec fn entries_map(e: Seq<(Seq<char>, Seq<Seq<char>>)>) -> Windows
    decreases e.len(),
{
    if e.len() == 0 {
        Map::empty()
    } else {
        entries_map(e.drop_last()).insert(e.last().0, e.last().1)
    }
}

/// Taking `x` out of `s` leaves no copy of it, keeps every other element,
/// never lengthens `s`, and shortens it when `x` was there.
pub proof fn lemma_remove_all(s: Seq<Seq<char>>, x: Seq<char>)
    ensures
        !remove_all(s, x).contains(x),
        remove_all(s, x).len() <= s.len(),
        s.contains(x) ==> remove_all(s, x).len() < s.len(),
        forall|y: Seq<char>| y != x ==> (remove_all(s, x).contains(y) <==> s.contains(y)),
        !s.contains(x) ==> remove_all(s, x) == s,
    decreases s.len(),
{
    if s.len() > 0 {
        let t = s.drop_last();
        lemma_remove_all(t, x);
        assert(s =~= t.push(s.last()));
        assert forall|y: Seq<char>| t.contains(y) implies s.contains(y) by {
            let j = choose|j: int| 0 <= j < t.len() && t[j] == y;
            assert(s[j] == y);
        }
        assert forall|y: Seq<char>| s.contains(y) && y != s.last() implies t.contains(y) by {
            let j = choose|j: int| 0 <= j < s.len() && s[j] == y;
            assert(t[j] == y);
        }
        let r = remove_all(s, x);
        if s.last() != x {
            let rt = remove_all(t, x);
            assert forall|y: Seq<char>| rt.contains(y) implies r.contains(y) by {
                let j = choose|j: int| 0 <= j < rt.len() && rt[j] == y;
                assert(r[j] == y);
            }
            assert forall|y: Seq<char>| r.contains(y) && y != s.last() implies rt.contains(y) by {
                let j = choose|j: int| 0 <= j < r.len() && r[j] == y;
                assert(rt[j] == y);
            }
            assert(r[r.len() - 1] == s.last());
        } else {
            assert(s[s.len() - 1] == x);
        }
    }
}

/// Removing an address keeps every other address, in the order it had:
/// the result is exactly `s` filtered by "is not `x`".
pub proof fn law_remove_all_is_filter(s: Seq<Seq<char>>, x: Seq<char>)
    ensures
        remove_all(s, x) == s.filter(other_than(x)),
    decreases s.len(),
{
    if s.len() > 0 {
        law_remove_all_is_filter(s.drop_last(), x);
        let p = other_than(x);
        reveal(Seq::filter);
        assert(s.filter(p) == (if p(s.last()) {
            s.drop_last().filter(p).push(s.last())
        } else {
            s.drop_last().filter(p)
        }));
    }
}

/// The test "is not `x`".
pub open spec fn other_than(x: Seq<char>) -> spec_fn(Seq<char>) -> bool {
    |y: Seq<char>| y != x
}

/// Removing `x` from a list that ends in another address keeps that address
/// last, after what removing `x` from the rest gives; removing it from a list
/// that ends in `x` drops that end.
pub proof fn law_remove_all_push(s: Seq<Seq<char>>, y: Seq<char>, x: Seq<char>)
    ensures
        y != x ==> remove_all(s.push(y), x) == remove_all(s, x).push(y),
        y == x ==> remove_all(s.push(y), x) == remove_all(s, x),
        remove_all(seq![y], x) == (if y == x {
            Seq::<Seq<char>>::empty()
        } else {
            seq![y]
        }),
        remove_all(Seq::<Seq<char>>::empty(), x) == Seq::<Seq<char>>::empty(),
{
    assert(s.push(y).drop_last() =~= s);
    let one = seq![y];
    assert(one.drop_last() =~= Seq::<Seq<char>>::empty());
    assert(one.last() == y);
    assert(Seq::<Seq<char>>::empty().push(y) =~= one);
    if y == x {
        assert(remove_all(one, x) == remove_all(Seq::<Seq<char>>::empty(), x));
    } else {
        assert(remove_all(one, x) == remove_all(Seq::<Seq<char>>::empty(), x).push(y));
    }
}

/// Distinct entries read back as the map they were written from: loading the
/// saved entries of a state gives that state again.
pub proof fn law_entries_round_trip(e: Seq<(Seq<char>, Seq<Seq<char>>)>)
    requires
        keys_distinct(e),
    ensures
        entries_map(e) == to_map(e),
    decreases e.len(),
{
    if e.len() > 0 {
        let t = e.drop_last();
        assert(keys_distinct(t));
        law_entries_round_trip(t);
        assert forall|i: int| 0 <= i < t.len() implies t[i].0 != e.last().0 by {
            assert(e[i].0 != e[e.len() - 1].0);
        }
        lemma_to_map_push(t, e.last());
        assert(t.push(e.last()) =~= e);
    }
}

/// Recording a window makes it one of the command's windows, so that the
/// command has a window to raise; no other command's windows change.
pub proof fn law_add_records(m: Windows, command: Seq<char>, address: Seq<char>)
    ensures
        after_add(m, command, address).contains_key(command),
        after_add(m, command, address)[command].contains(address),
        next_window(after_add(m, command, address), command, None) is Some,
        forall|k: Seq<char>|
            k != command ==> (#[trigger] after_add(m, command, address).contains_key(k)
                == m.contains_key(k) && (m.contains_key(k) ==> after_add(m, command, address)[k]
                == m[k])),
{
    let r = after_add(m, command, address);
    if m.contains_key(command) && !m[command].contains(address) {
        assert(r[command][r[command].len() - 1] == address);
    }
    if !m.contains_key(command) {
        assert(r[command][0] == address);
    }
}

/// Recording the same window twice is the same as recording it once.
pub proof fn law_add_idempotent(m: Windows, command: Seq<char>, address: Seq<char>)
    ensures
        after_add(after_add(m, command, address), command, address) == after_add(
            m,
            command,
            address,
        ),
{
    law_add_records(m, command, address);
}

/// A command's list that holds no address twice still holds none twice after
/// a window is recorded.
pub proof fn law_add_keeps_duplicates_out(m: Windows, command: Seq<char>, address: Seq<char>)
    requires
        m.contains_key(command) ==> m[command].no_duplicates(),
    ensures
        after_add(m, command, address)[command].no_duplicates(),
{
    let r = after_add(m, command, address);
    if m.contains_key(command) && !m[command].contains(address) {
        let l = m[command];
        let n = l.push(address);
        assert forall|i: int, j: int| 0 <= i < n.len() && 0 <= j < n.len() && i != j implies n[i]
            != n[j] by {
            if i < l.len() && j < l.len() {
            } else if i < l.len() {
                assert(l[i] == n[i]);
            } else {
                assert(l[j] == n[j]);
            }
        }
    }
}

/// After a window is removed from a command, the command no longer lists it;
/// no other command's windows change.
pub proof fn law_remove_forgets(m: Windows, command: Seq<char>, address: Seq<char>)
    ensures
        !(after_remove(m, command, address).contains_key(command) && after_remove(
            m,
            command,
            address,
        )[command].contains(address)),
        forall|k: Seq<char>|
            k != command ==> (#[trigger] after_remove(m, command, address).contains_key(k)
                == m.contains_key(k) && (m.contains_key(k) ==> after_remove(m, command, address)[k]
                == m[k])),
{
    if m.contains_key(command) {
        lemma_remove_all(m[command], address);
    }
}

/// Removing a window that a command did not list, right after recording it
/// there, restores the state, as long as the command had no list yet or a
/// non-empty one.
pub proof fn law_remove_undoes_add(m: Windows, command: Seq<char>, address: Seq<char>)
    requires
        !(m.contains_key(command) && (m[command].contains(address) || m[command].len() == 0)),
    ensures
        after_remove(after_add(m, command, address), command, address) == m,
{
    if m.contains_key(command) {
        let l = m[command];
        lemma_remove_all(l, address);
        assert(l.push(address).drop_last() =~= l);
        assert(remove_all(l.push(address), address) == remove_all(l, address));
        assert(m.insert(command, l) =~= m);
    } else {
        let one = seq![address];
        assert(one.drop_last() =~= Seq::<Seq<char>>::empty());
        assert(one.last() == address);
        assert(remove_all(one.drop_last(), address).len() == 0);
        assert(remove_all(one, address).len() == 0);
        assert(m.insert(command, seq![address]).remove(command) =~= m);
    }
}

/// Removing an address from every command leaves each command exactly as
/// removing it from that command alone would.
pub proof fn law_remove_everywhere_per_command(m: Windows, address: Seq<char>, k: Seq<char>)
    ensures
        after_remove_everywhere(m, address).contains_key(k) == after_remove(
            m,
            k,
            address,
        ).contains_key(k),
        after_remove_everywhere(m, address).contains_key(k) ==> after_remove_everywhere(
            m,
            address,
        )[k] == after_remove(m, k, address)[k],
{
}

/// The window picked for a command is always one of its windows.
pub proof fn law_next_is_recorded(m: Windows, command: Seq<char>, focus: Option<Seq<char>>)
    ensures
        next_window(m, command, focus) matches Some(x) ==> m.contains_key(command)
            && m[command].contains(x),
{
    if m.contains_key(command) && m[command].len() > 0 {
        let l = m[command];
        match focus {
            Some(f) => {
                lemma_first_index(l, f);
                match first_index(l, f) {
                    Some(p) => {
                        let q = (p + 1) % (l.len() as int);
                        assert(0 <= q < l.len());
                        assert(l[q] == l[q]);
                    },
                    None => {
                        assert(l[0] == l[0]);
                    },
                }
            },
            None => {
                assert(l[0] == l[0]);
            },
        }
    }
}

/// Raising cycles: when a command's list holds no address twice, the window
/// picked while its `i`-th window is focused is the next one, and the last
/// is followed by the first.
pub proof fn law_next_cycles(m: Windows, command: Seq<char>, i: int)
    requires
        m.contains_key(command),
        m[command].no_duplicates(),
        0 <= i < m[command].len(),
    ensures
        next_window(m, command, Some(m[command][i])) == Some(
            m[command][(i + 1) % (m[command].len() as int)],
        ),
{
    let l = m[command];
    lemma_first_index_at(l, l[i], i);
}

/// The window picked after `k` successive picks, starting from `first` focused
/// and focusing each pick in turn.
pub open spec fn pick_after(m: Windows, command: Seq<char>, first: Seq<char>, k: nat) -> Option<
    Seq<char>,
>
    decreases k,
{
    if k == 0 {
        Some(first)
    } else {
        match pick_after(m, command, first, (k - 1) as nat) {
            Some(f) => next_window(m, command, Some(f)),
            None => None,
        }
    }
}

/// Raising again and again walks the command's windows in order: starting
/// from its `j`-th window, the `k`-th pick is window `(j + k) mod n`.
pub proof fn law_picks_cycle(m: Windows, command: Seq<char>, j: int, k: nat)
    requires
        m.contains_key(command),
        m[command].no_duplicates(),
        0 <= j < m[command].len(),
    ensures
        pick_after(m, command, m[command][j], k) == Some(
            m[command][(j + k) % (m[command].len() as int)],
        ),
    decreases k,
{
    let l = m[command];
    let n = l.len() as int;
    if k == 0 {
        vstd::arithmetic::div_mod::lemma_small_mod(j as nat, n as nat);
    } else {
        law_picks_cycle(m, command, j, (k - 1) as nat);
        let p = (j + k - 1) % n;
        vstd::arithmetic::div_mod::lemma_mod_bound(j + k - 1, n);
        law_next_cycles(m, command, p);
        vstd::arithmetic::div_mod::lemma_add_mod_noop_right(1, j + k - 1, n);
        assert((p + 1) % n == (j + k) % n);
    }
}

/// Within `n` successive picks from one of its windows, no window of the
/// command is picked twice: each is reached once before the cycle repeats.
pub proof fn law_picks_visit_each_once(m: Windows, command: Seq<char>, j: int, a: nat, b: nat)
    requires
        m.contains_key(command),
        m[command].no_duplicates(),
        0 <= j < m[command].len(),
        a < b < m[command].len(),
    ensures
        pick_after(m, command, m[command][j], a) != pick_after(m, command, m[command][j], b),
{
    let l = m[command];
    let n = l.len() as int;
    law_picks_cycle(m, command, j, a);
    law_picks_cycle(m, command, j, b);
    let x = j + a;
    let y = j + b;
    vstd::arithmetic::div_mod::lemma_mod_bound(x, n);
    vstd::arithmetic::div_mod::lemma_mod_bound(y, n);
    if x % n == y % n {
        vstd::arithmetic::div_mod::lemma_sub_mod_noop(y, x, n);
        vstd::arithmetic::div_mod::lemma_small_mod((y - x) as nat, n as nat);
        assert((y % n - x % n) % n == 0) by {
            vstd::arithmetic::div_mod::lemma_small_mod(0, n as nat);
            assert(y % n - x % n == 0);
        }
        assert(false);
    }
    assert(l[x % n] != l[y % n]);
}

/// With no window of the command focused, the first one is picked.
pub proof fn law_next_without_focus(m: Windows, command: Seq<char>, focus: Option<Seq<char>>)
    requires
        m.contains_key(command),
        m[command].len() > 0,
        focus matches Some(f) ==> !m[command].contains(f),
    ensures
        next_window(m, command, focus) == Some(m[command][0]),
{
    if let Some(f) = focus {
        lemma_first_index(m[command], f);
        if first_index(m[command], f) is Some {
            let p = first_index(m[command], f)->0;
            assert(m[command][p] == f);
        }
    }
}

/// How many windows a command has recorded.
pub open spec fn window_count(m: Windows, command: Seq<char>) -> nat {
    if m.contains_key(command) {
        m[command].len()
    } else {
        0
    }
}

/// Dropping a picked window that could not be focused shortens the command's
/// list, so trying windows in turn and dropping the ones that are gone ends.
pub proof fn law_dropping_pick_shrinks(m: Windows, command: Seq<char>, focus: Option<Seq<char>>)
    requires
        next_window(m, command, focus) is Some,
    ensures
        window_count(
            after_remove(m, command, next_window(m, command, focus)->0),
            command,
        ) < window_count(m, command),
{
    let t = next_window(m, command, focus)->0;
    law_next_is_recorded(m, command, focus);
    lemma_remove_all(m[command], t);
}

/// The command-to-windows state that persists between runs.
#[derive(Debug)]
pub struct State {
    windows: Vec<(String, Vec<String>)>,
}

impl State {
    #[verifier::type_invariant]
    spec fn commands_distinct(self) -> bool {
        keys_distinct(model(self.windows@))
    }

    /// The state as a map from command to window addresses.
    pub closed spec fn windows_map(self) -> Windows {
        to_map(model(self.windows@))
    }
}

/// The addresses of `list` other than `address`, in order.
fn without(list: &Vec<String>, address: &str) -> (r: Vec<String>)
    ensures
        addr_views(r@) == remove_all(addr_views(list@), address@),
{
    let mut r: Vec<String> = Vec::new();
    let mut i: usize = 0;
    while i < list.len()
        invariant
            i <= list.len(),
            addr_views(r@) == remove_all(addr_views(list@).take(i as int), address@),
        decreases list.len() - i,
    {
        let ghost before = addr_views(list@).take(i as int);
        assert(addr_views(list@).take(i + 1).drop_last() =~= before);
        assert(addr_views(list@).take(i + 1).last() == list@[i as int]@);
        if !str_eq(list[i].as_str(), address) {
            r.push(list[i].clone());
            assert(addr_views(r@) =~= remove_all(before, address@).push(list@[i as int]@));
        }
        i += 1;
    }
    assert(addr_views(list@).take(list.len() as int) =~= addr_views(list@));
    r
}

impl State {
    /// An empty state.
    pub fn new() -> (r: Self)
        ensures
            r@ == Map::<Seq<char>, Seq<Seq<char>>>::empty(),
    {
        let r = State { windows: Vec::new() };
        assert(r@ =~= Map::<Seq<char>, Seq<Seq<char>>>::empty());
        r
    }

    /// Moves the entries out, leaving the state empty.
    fn take_entries(&mut self) -> (w: Vec<(String, Vec<String>)>)
        ensures
            w@ == old(self).windows@,
            final(self).windows@.len() == 0,
    {
        let mut w: Vec<(String, Vec<String>)> = Vec::new();
        std::mem::swap(&mut w, &mut self.windows);
        w
    }

    /// Position of the entry for `command`.
    fn find(&self, command: &str) -> (r: Option<usize>)
        ensures
            match r {
                Some(i) => i < self.windows.len() && self.windows@[i as int].0@ == command@,
                None => forall|i: int|
                    0 <= i < self.windows.len() ==> #[trigger] self.windows@[i].0@ != command@,
            },
    {
        let mut i: usize = 0;
        while i < self.windows.len()
            invariant
                i <= self.windows.len(),
                forall|j: int| 0 <= j < i ==> #[trigger] self.windows@[j].0@ != command@,
            decreases self.windows.len() - i,
        {
            if str_eq(self.windows[i].0.as_str(), command) {
                return Some(i);
            }
            i += 1;
        }
        None
    }

    /// Removes an address from the tracked windows for a given command; a
    /// command left without windows is forgotten.
    pub fn remove_window(&mut self, command: &str, address: &str)
        ensures
            final(self)@ == after_remove(old(self)@, command@, address@),
    {
        proof {
            use_type_invariant(&*self);
        }
        let ghost m = model(self.windows@);
        match self.find(command) {
            None => {
                proof {
                    lemma_to_map_absent(m, command@);
                }
            },
            Some(i) => {
                proof {
                    lemma_to_map_at(m, i as int);
                }
                let mut w = self.take_entries();
                let (key, list) = w.remove(i);
                let filtered = without(&list, address);
                proof {
                    assert(model(w@) =~= m.remove(i as int));
                    lemma_to_map_remove(m, i as int);
                }
                if filtered.len() > 0 {
                    w.insert(i, (key, filtered));
                    proof {
                        let e = (command@, addr_views(filtered@));
                        assert(model(w@) =~= m.update(i as int, e));
                        lemma_to_map_update(m, i as int, addr_views(filtered@));
                    }
                }
                self.windows = w;
            },
        }
    }

    /// Records `address` as a window of `command`, after the ones already
    /// recorded, unless it is recorded there already.
    pub fn add_window(&mut self, command: &str, address: String)
        ensures
            final(self)@ == after_add(old(self)@, command@, address@),
    {
        proof {
            use_type_invariant(&*self);
        }
        let ghost m = model(self.windows@);
        match self.find(command) {
            None => {
                proof {
                    lemma_to_map_absent(m, command@);
                }
                let mut list: Vec<String> = Vec::new();
                list.push(address);
                let mut w = self.take_entries();
                w.push((String::from_str(command), list));
                proof {
                    let e = (command@, addr_views(list@));
                    assert(addr_views(list@) =~= seq![address@]);
                    assert(model(w@) =~= m.push(e));
                    lemma_to_map_push(m, e);
                }
                self.windows = w;
            },
            Some(i) => {
                proof {
                    lemma_to_map_at(m, i as int);
                }
                if !holds(&self.windows[i].1, &address) {
                    let mut w = self.take_entries();
                    let (key, mut list) = w.remove(i);
                    let ghost old_list = addr_views(list@);
                    list.push(address);
                    assert(addr_views(list@) =~= old_list.push(address@));
                    w.insert(i, (key, list));
                    proof {
                        let e = (command@, addr_views(list@));
                        assert(model(w@) =~= m.update(i as int, e));
                        lemma_to_map_update(m, i as int, addr_views(list@));
                    }
                    self.windows = w;
                }
            },
        }
    }

    /// The window to focus for `command`: the one after the focused window in
    /// the command's list, cycling to the start, or the first one.
    pub fn get_next_window(&self, command: &str, current_focus: Option<&str>) -> (r: Option<
        String,
    >)
        ensures
            match r {
                Some(a) => next_window(
                    self@,
                    command@,
                    match current_focus {
                        Some(f) => Some(f@),
                        None => None,
                    },
                ) == Some(a@),
                None => next_window(
                    self@,
                    command@,
                    match current_focus {
                        Some(f) => Some(f@),
                        None => None,
                    },
                ) is None,
            },
    {
        proof {
            use_type_invariant(self);
        }
        let ghost m = model(self.windows@);
        let i = match self.find(command) {
            Some(i) => i,
            None => {
                proof {
                    lemma_to_map_absent(m, command@);
                }
                return None;
            },
        };
        proof {
            lemma_to_map_at(m, i as int);
        }
        let list = &self.windows[i].1;
        let ghost l = addr_views(list@);
        if list.len() == 0 {
            return None;
        }
        match current_focus {
            Some(focus) => {
                let mut p: usize = 0;
                while p < list.len()
                    invariant
                        l == addr_views(list@),
                        self@.contains_key(command@),
                        self@[command@] == l,
                        current_focus == Some(focus),
                        list.len() > 0,
                        p <= list.len(),
                        forall|j: int| 0 <= j < p ==> l[j] != focus@,
                    decreases list.len() - p,
                {
                    if str_eq(list[p].as_str(), focus) {
                        proof {
                            lemma_first_index_at(l, focus@, p as int);
                        }
                        let next = (p + 1) % list.len();
                        assert(next as int == (p as int + 1) % (l.len() as int));
                        assert(l[next as int] == list@[next as int]@);
                        return Some(list[next].clone());
                    }
                    p += 1;
                }
                proof {
                    lemma_first_index(l, focus@);
                }
                Some(list[0].clone())
            },
            None => Some(list[0].clone()),
        }
    }
}

impl State {
    /// Removes an address from the lists of all commands; commands left
    /// without windows are forgotten.
    pub fn remove_window_by_address(&mut self, address: &str)
        ensures
            final(self)@ == after_remove_everywhere(old(self)@, address@),
    {
        proof {
            use_type_invariant(&*self);
        }
        let ghost m = model(self.windows@);
        let ghost a = address@;
        let old_w = self.take_entries();
        let mut w: Vec<(String, Vec<String>)> = Vec::new();
        let ghost mut src: Seq<int> = Seq::empty();
        let mut i: usize = 0;
        while i < old_w.len()
            invariant
                model(old_w@) == m,
                a == address@,
                keys_distinct(m),
                i <= old_w.len(),
                src.len() == w.len(),
                forall|j: int|
                    0 <= j < w.len() ==> 0 <= #[trigger] src[j] < i && model(w@)[j] == (
                        m[src[j]].0,
                        remove_all(m[src[j]].1, a),
                    ) && model(w@)[j].1.len() > 0,
                forall|j1: int, j2: int| 0 <= j1 < j2 < w.len() ==> src[j1] < src[j2],
                forall|k: int|
                    0 <= k < i && remove_all(#[trigger] m[k].1, a).len() > 0 ==> exists|j: int|
                        0 <= j < w.len() && src[j] == k,
            decreases old_w.len() - i,
        {
            let entry = &old_w[i];
            let filtered = without(&entry.1, address);
            assert(m[i as int] == entry_view(old_w@[i as int]));
            assert(*entry == old_w@[i as int]);
            assert(m[i as int].1 == addr_views(entry.1@));
            assert(addr_views(filtered@) == remove_all(m[i as int].1, a));
            if filtered.len() > 0 {
                let ghost old_src = src;
                let ghost old_w_model = model(w@);
                let key = entry.0.clone();
                assert(key@ == m[i as int].0);
                w.push((key, filtered));
                proof {
                    src = src.push(i as int);
                    assert(model(w@) =~= old_w_model.push(
                        (m[i as int].0, remove_all(m[i as int].1, a)),
                    ));
                    assert forall|j: int| 0 <= j < w.len() implies 0 <= #[trigger] src[j] < i + 1
                        && model(w@)[j] == (m[src[j]].0, remove_all(m[src[j]].1, a)) && model(
                        w@,
                    )[j].1.len() > 0 by {
                        if j < old_src.len() {
                            assert(src[j] == old_src[j]);
                            assert(model(w@)[j] == old_w_model[j]);
                        } else {
                            assert(model(w@)[j].1 == addr_views(filtered@));
                            assert(addr_views(filtered@).len() == filtered@.len());
                        }
                    }
                    assert forall|k: int|
                        0 <= k < i + 1 && remove_all(#[trigger] m[k].1, a).len() > 0 implies exists|
                        j: int,
                    | 0 <= j < w.len() && src[j] == k by {
                        if k == i {
                            assert(src[w.len() - 1] == k);
                        } else {
                            let j = choose|j: int| 0 <= j < old_src.len() && old_src[j] == k;
                            assert(src[j] == k);
                        }
                    }
                }
            }
            i += 1;
        }
        let ghost mw = model(w@);
        proof {
            assert forall|x: int, y: int| 0 <= x < y < mw.len() implies #[trigger] mw[x].0
                != #[trigger] mw[y].0 by {
                assert(m[src[x]].0 != m[src[y]].0);
            }
            let target = after_remove_everywhere(to_map(m), a);
            assert forall|x: Seq<char>| #[trigger]
                to_map(mw).contains_key(x) == target.contains_key(x) by {
                if to_map(mw).contains_key(x) {
                    let j = choose|j: int| 0 <= j < mw.len() && mw[j].0 == x;
                    lemma_to_map_at(m, src[j]);
                }
                if target.contains_key(x) {
                    let k = choose|k: int| 0 <= k < m.len() && m[k].0 == x;
                    lemma_to_map_at(m, k);
                    let j = choose|j: int| 0 <= j < w.len() && src[j] == k;
                    assert(mw[j].0 == x);
                }
            }
            assert forall|x: Seq<char>| #[trigger] to_map(mw).contains_key(x) implies to_map(mw)[x]
                == target[x] by {
                let j = choose|j: int| 0 <= j < mw.len() && mw[j].0 == x;
                lemma_to_map_at(mw, j);
                lemma_to_map_at(m, src[j]);
            }
            assert(to_map(mw) =~= target);
        }
        self.windows = w;
    }

    /// Sets the list of `command` to `list`, whether or not it had one.
    fn set_entry(&mut self, command: String, list: Vec<String>)
        ensures
            final(self)@ == old(self)@.insert(command@, addr_views(list@)),
    {
        proof {
            use_type_invariant(&*self);
        }
        let ghost m = model(self.windows@);
        let ghost e = (command@, addr_views(list@));
        match self.find(command.as_str()) {
            None => {
                let mut w = self.take_entries();
                w.push((command, list));
                proof {
                    assert(model(w@) =~= m.push(e));
                    lemma_to_map_push(m, e);
                }
                self.windows = w;
            },
            Some(i) => {
                let mut w = self.take_entries();
                w.set(i, (command, list));
                proof {
                    assert(model(w@) =~= m.update(i as int, e));
                    lemma_to_map_update(m, i as int, e.1);
                }
                self.windows = w;
            },
        }
    }

    /// The state holding `entries`, as a hash map would hold them: where a
    /// command comes twice, its later list is kept.
    pub fn from_entries(entries: Vec<(String, Vec<String>)>) -> (r: Self)
        ensures
            r@ == entries_map(model(entries@)),
    {
        let mut st = State::new();
        let mut i: usize = 0;
        while i < entries.len()
            invariant
                i <= entries.len(),
                st@ == entries_map(model(entries@).take(i as int)),
            decreases entries.len() - i,
        {
            let key = entries[i].0.clone();
            let list = entries[i].1.clone();
            assert(addr_views(list@) =~= addr_views(entries@[i as int].1@));
            st.set_entry(key, list);
            assert(model(entries@).take(i + 1).drop_last() =~= model(entries@).take(i as int));
            i += 1;
        }
        assert(model(entries@).take(entries.len() as int) =~= model(entries@));
        st
    }

    /// The stored entries: one per command, commands distinct.
    pub fn entries(&self) -> (r: &Vec<(String, Vec<String>)>)
        ensures
            keys_distinct(model(r@)),
            to_map(model(r@)) == self@,
    {
        proof {
            use_type_invariant(self);
        }
        &self.windows
    }
}

impl Default for State {
    fn default() -> (r: Self)
        ensures
            r@ == Map::<Seq<char>, Seq<Seq<char>>>::empty(),
    {
        State::new()
    }
}

impl View for State {
    type V = Windows;

    closed spec fn view(&self) -> Windows {
        self.windows_map()
    }
}


/// The placement of one window, as a saved session records it.
#[derive(Debug, Clone)]
pub struct WindowProperties {
    pub workspace_id: i32,
    pub floating: bool,
    pub monitor: i32,
    pub pinned: bool,
    pub fullscreen_mode: i32,
    pub at: [i32; 2],
    pub size: [i32; 2],
}

/// A saved session.
#[derive(Debug)]
pub struct Session {
    /// Mapping of command to properties of windows it owned.
    pub entries: Vec<(String, WindowProperties)>,
}

impl Default for Session {
    fn default() -> (r: Self)
        ensures
            r.entries@.len() == 0,
    {
        Session { entries: Vec::new() }
    }
}

} // verus!
