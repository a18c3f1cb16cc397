//! What Hyprland reports of its windows, and what the library computes from it.

use vstd::prelude::*;

use crate::text::{
    law_int_decimal_writes, writes_decimal,
    addr_views, contains, contains_seq, decimal, holds, int_decimal, str_eq, trim, trim_spec,
};

verus! {

/// A workspace as `hyprctl clients -j` reports it.
#[derive(Debug, Clone)]
pub struct Workspace {
    pub id: i32,
    pub name: String,
}

/// A window as `hyprctl clients -j` or `hyprctl activewindow -j` reports it.
#[derive(Debug, Clone)]
pub struct Client {
    pub class: String,
    pub address: String,
    pub initial_class: Option<String>,
    pub title: Option<String>,
    pub initial_title: Option<String>,
    pub tag: Option<String>,
    pub xdg_tag: Option<String>,
    pub workspace: Workspace,
    pub floating: bool,
    pub monitor: i32,
    pub pinned: bool,
    pub fullscreen: bool,
    pub fullscreen_mode: i32,
    pub at: [i32; 2],
    pub size: [i32; 2],
}


/// A request carried out by `hyprctl dispatch`.
#[derive(Debug, Clone)]
pub enum Dispatch {
    /// Run a command.
    Exec(String),
    /// Focus the window at an address.
    FocusWindow(String),
    /// Move a window to a workspace without following it.
    MoveToWorkspaceSilent { address: String, workspace_id: i32 },
    /// Toggle whether a window floats.
    ToggleFloating(String),
    /// Make the active window fullscreen in a mode.
    Fullscreen(i32),
    /// Move a window to an exact position.
    MoveWindowPixel { address: String, x: i32, y: i32 },
    /// Resize a window to an exact size.
    ResizeWindowPixel { address: String, w: i32, h: i32 },
    /// Pin a window.
    Pin(String),
}

/// `address:` followed by the address, the window selector of `hyprctl`.
pub open spec fn selector(address: Seq<char>) -> Seq<char> {
    "address:"@ + address
}

/// `exact X Y,address:A`, the position or size argument of `hyprctl`.
pub open spec fn exact_arg(a: i32, b: i32, address: Seq<char>) -> Seq<char> {
    "exact "@ + int_decimal(a as int) + " "@ + int_decimal(b as int) + ","@ + selector(address)
}

/// The arguments of `hyprctl` that carry out a request.
pub open spec fn dispatch_args(d: Dispatch) -> Seq<Seq<char>> {
    match d {
        Dispatch::Exec(c) => seq!["dispatch"@, "exec"@, c@],
        Dispatch::FocusWindow(a) => seq!["dispatch"@, "focuswindow"@, selector(a@)],
        Dispatch::MoveToWorkspaceSilent { address, workspace_id } => seq![
            "dispatch"@,
            "movetoworkspacesilent"@,
            int_decimal(workspace_id as int) + ","@ + selector(address@),
        ],
        Dispatch::ToggleFloating(a) => seq!["dispatch"@, "togglefloating"@, selector(a@)],
        Dispatch::Fullscreen(mode) => seq!["dispatch"@, "fullscreen"@, int_decimal(mode as int)],
        Dispatch::MoveWindowPixel { address, x, y } => seq![
            "dispatch"@,
            "movewindowpixel"@,
            exact_arg(x, y, address@),
        ],
        Dispatch::ResizeWindowPixel { address, w, h } => seq![
            "dispatch"@,
            "resizewindowpixel"@,
            exact_arg(w, h, address@),
        ],
        Dispatch::Pin(a) => seq!["dispatch"@, "pin"@, selector(a@)],
    }
}

/// Every request is three arguments to `hyprctl`: `dispatch`, the
/// dispatcher's name, and its argument; the window-only requests pass
/// `address:` and the address, and `exec` passes the command unchanged.
pub proof fn law_dispatch_words(d: Dispatch)
    ensures
        dispatch_args(d).len() == 3,
        dispatch_args(d)[0] == "dispatch"@,
        d matches Dispatch::Exec(c) ==> dispatch_args(d)[1] == "exec"@ && dispatch_args(d)[2]
            == c@,
        d matches Dispatch::FocusWindow(a) ==> dispatch_args(d)[1] == "focuswindow"@
            && dispatch_args(d)[2] == "address:"@ + a@,
        d matches Dispatch::ToggleFloating(a) ==> dispatch_args(d)[1] == "togglefloating"@
            && dispatch_args(d)[2] == "address:"@ + a@,
        d matches Dispatch::Pin(a) ==> dispatch_args(d)[1] == "pin"@ && dispatch_args(d)[2]
            == "address:"@ + a@,
        d is MoveToWorkspaceSilent ==> dispatch_args(d)[1] == "movetoworkspacesilent"@,
        d is Fullscreen ==> dispatch_args(d)[1] == "fullscreen"@,
        d is MoveWindowPixel ==> dispatch_args(d)[1] == "movewindowpixel"@,
        d is ResizeWindowPixel ==> dispatch_args(d)[1] == "resizewindowpixel"@,
{
}

/// Moving to a workspace names the workspace by its number as written in
/// base ten (a `-` only for a negative one), then `,address:` and the address.
pub proof fn law_workspace_arg(address: String, workspace_id: i32)
    ensures
        exists|t: Seq<char>|
            #[trigger] writes_decimal(t, workspace_id as int) && dispatch_args(
                Dispatch::MoveToWorkspaceSilent { address, workspace_id },
            )[2] == t + ","@ + "address:"@ + address@,
{
    let t = int_decimal(workspace_id as int);
    law_int_decimal_writes(workspace_id as int);
    assert(dispatch_args(Dispatch::MoveToWorkspaceSilent { address, workspace_id })[2] =~= t
        + ","@ + "address:"@ + address@);
}

/// Going fullscreen passes the mode as written in base ten.
pub proof fn law_fullscreen_arg(mode: i32)
    ensures
        writes_decimal(dispatch_args(Dispatch::Fullscreen(mode))[2], mode as int),
{
    law_int_decimal_writes(mode as int);
}

/// Moving or resizing a window passes `exact`, the two numbers as written in
/// base ten separated by a space, then `,address:` and the address.
pub proof fn law_pixel_args(address: String, a: i32, b: i32)
    ensures
        exists|ta: Seq<char>, tb: Seq<char>|
            #[trigger] writes_decimal(ta, a as int) && #[trigger] writes_decimal(tb, b as int)
                && dispatch_args(Dispatch::MoveWindowPixel { address, x: a, y: b })[2] == "exact "@
                + ta + " "@ + tb + ","@ + "address:"@ + address@ && dispatch_args(
                Dispatch::ResizeWindowPixel { address, w: a, h: b },
            )[2] == "exact "@ + ta + " "@ + tb + ","@ + "address:"@ + address@,
{
    let ta = int_decimal(a as int);
    let tb = int_decimal(b as int);
    law_int_decimal_writes(a as int);
    law_int_decimal_writes(b as int);
    assert(dispatch_args(Dispatch::MoveWindowPixel { address, x: a, y: b })[2] =~= "exact "@ + ta
        + " "@ + tb + ","@ + "address:"@ + address@);
    assert(dispatch_args(Dispatch::ResizeWindowPixel { address, w: a, h: b })[2] =~= "exact "@
        + ta + " "@ + tb + ","@ + "address:"@ + address@);
}

fn selector_exec(address: &str) -> (r: String)
    ensures
        r@ == selector(address@),
{
    let mut r = String::from_str("address:");
    r.append(address);
    r
}

fn exact_exec(a: i32, b: i32, address: &str) -> (r: String)
    ensures
        r@ == exact_arg(a, b, address@),
{
    let mut r = String::from_str("exact ");
    r.append(decimal(a).as_str());
    r.append(" ");
    r.append(decimal(b).as_str());
    r.append(",");
    r.append(selector_exec(address).as_str());
    r
}

fn three(a: &str, b: &str, c: String) -> (r: Vec<String>)
    ensures
        addr_views(r@) == seq![a@, b@, c@],
{
    let mut r: Vec<String> = Vec::new();
    r.push(String::from_str(a));
    r.push(String::from_str(b));
    r.push(c);
    assert(addr_views(r@) =~= seq![a@, b@, c@]);
    r
}

impl Dispatch {
    /// The arguments to hand `hyprctl` for this request.
    pub fn args(&self) -> (r: Vec<String>)
        ensures
            addr_views(r@) == dispatch_args(*self),
    {
        match self {
            Dispatch::Exec(c) => three("dispatch", "exec", c.clone()),
            Dispatch::FocusWindow(a) => three("dispatch", "focuswindow", selector_exec(a.as_str())),
            Dispatch::MoveToWorkspaceSilent { address, workspace_id } => {
                let mut t = decimal(*workspace_id);
                t.append(",");
                t.append(selector_exec(address.as_str()).as_str());
                three("dispatch", "movetoworkspacesilent", t)
            },
            Dispatch::ToggleFloating(a) => three(
                "dispatch",
                "togglefloating",
                selector_exec(a.as_str()),
            ),
            Dispatch::Fullscreen(mode) => three("dispatch", "fullscreen", decimal(*mode)),
            Dispatch::MoveWindowPixel { address, x, y } => three(
                "dispatch",
                "movewindowpixel",
                exact_exec(*x, *y, address.as_str()),
            ),
            Dispatch::ResizeWindowPixel { address, w, h } => three(
                "dispatch",
                "resizewindowpixel",
                exact_exec(*w, *h, address.as_str()),
            ),
            Dispatch::Pin(a) => three("dispatch", "pin", selector_exec(a.as_str())),
        }
    }
}

/// The request that makes a window float: Hyprland can only toggle, and a
/// window starts tiled, so there is one only when `floating` is set.
pub fn floating_request(address: &str, floating: bool) -> (r: Option<Dispatch>)
    ensures
        match r {
            Some(d) => floating && d is ToggleFloating && d->ToggleFloating_0@ == address@,
            None => !floating,
        },
{
    if floating {
        Some(Dispatch::ToggleFloating(String::from_str(address)))
    } else {
        None
    }
}

/// The request that makes the active window fullscreen, only for a mode above 0.
pub fn fullscreen_request(mode: i32) -> (r: Option<Dispatch>)
    ensures
        match r {
            Some(d) => mode > 0 && d == Dispatch::Fullscreen(mode),
            None => mode <= 0,
        },
{
    if mode > 0 {
        Some(Dispatch::Fullscreen(mode))
    } else {
        None
    }
}

/// The request that pins a window, only when `pinned` is set.
pub fn pinned_request(address: &str, pinned: bool) -> (r: Option<Dispatch>)
    ensures
        match r {
            Some(d) => pinned && d is Pin && d->Pin_0@ == address@,
            None => !pinned,
        },
{
    if pinned {
        Some(Dispatch::Pin(String::from_str(address)))
    } else {
        None
    }
}

/// Whether a `focuswindow` dispatch reached its window: `hyprctl` must have
/// succeeded and not reported that no such window exists.
pub fn focus_succeeded(stdout: &str, success: bool) -> (r: bool)
    ensures
        r == (success && !contains_seq(stdout@, "No such window found"@)),
{
    if contains(stdout, "No such window found") {
        return false;
    }
    success
}

/// Whether `hyprctl activewindow -j` reported no window: its output,
/// trimmed, is `{}` or empty.
pub fn no_active_window(stdout: &str) -> (r: bool)
    ensures
        r == (trim_spec(stdout@) == "{}"@ || trim_spec(stdout@).len() == 0),
{
    let t = trim(stdout);
    str_eq(t, "{}") || t.unicode_len() == 0
}

/// The addresses of the given windows.
pub open spec fn addresses_of(clients: Seq<Client>) -> Seq<Seq<char>> {
    clients.map_values(|c: Client| c.address@)
}

/// `s` with each element kept at its first occurrence only.
pub open spec fn dedup(s: Seq<Seq<char>>) -> Seq<Seq<char>>
    decreases s.len(),
{
    if s.len() == 0 {
        s
    } else if dedup(s.drop_last()).contains(s.last()) {
        dedup(s.drop_last())
    } else {
        dedup(s.drop_last()).push(s.last())
    }
}

/// The elements of `after` that `before` lacks, in order.
pub open spec fn fresh(after: Seq<Seq<char>>, before: Seq<Seq<char>>) -> Seq<Seq<char>>
    decreases after.len(),
{
    if after.len() == 0 {
        after
    } else if before.contains(after.last()) {
        fresh(after.drop_last(), before)
    } else {
        fresh(after.drop_last(), before).push(after.last())
    }
}

/// The set of window addresses among `clients`, each once, in the order of
/// first appearance.
pub fn get_client_addresses(clients: &Vec<Client>) -> (r: Vec<String>)
    ensures
        addr_views(r@) == dedup(addresses_of(clients@)),
{
    let mut r: Vec<String> = Vec::new();
    let mut i: usize = 0;
    while i < clients.len()
        invariant
            i <= clients.len(),
            addr_views(r@) == dedup(addresses_of(clients@).take(i as int)),
        decreases clients.len() - i,
    {
        let ghost before = addresses_of(clients@).take(i as int);
        assert(addresses_of(clients@).take(i + 1).drop_last() =~= before);
        assert(addresses_of(clients@).take(i + 1).last() == clients@[i as int].address@);
        let a = &clients[i].address;
        if !holds(&r, a) {
            r.push(a.clone());
            assert(addr_views(r@) =~= dedup(before).push(a@));
        }
        i += 1;
    }
    assert(addresses_of(clients@).take(clients.len() as int) =~= addresses_of(clients@));
    r
}

/// The addresses in `after` that are not in `before`: the windows that
/// appeared between two snapshots.
pub fn new_addresses(before: &Vec<String>, after: &Vec<String>) -> (r: Vec<String>)
    ensures
        addr_views(r@) == fresh(addr_views(after@), addr_views(before@)),
{
    let mut r: Vec<String> = Vec::new();
    let mut i: usize = 0;
    while i < after.len()
        invariant
            i <= after.len(),
            addr_views(r@) == fresh(addr_views(after@).take(i as int), addr_views(before@)),
        decreases after.len() - i,
    {
        let ghost prev = addr_views(after@).take(i as int);
        assert(addr_views(after@).take(i + 1).drop_last() =~= prev);
        assert(addr_views(after@).take(i + 1).last() == after@[i as int]@);
        if !holds(before, &after[i]) {
            r.push(after[i].clone());
            assert(addr_views(r@) =~= fresh(prev, addr_views(before@)).push(after@[i as int]@));
        }
        i += 1;
    }
    assert(addr_views(after@).take(after.len() as int) =~= addr_views(after@));
    r
}

/// Each address occurs in `dedup(s)` once, and exactly the addresses of `s` occur.
pub proof fn law_dedup(s: Seq<Seq<char>>)
    ensures
        dedup(s).no_duplicates(),
        forall|x: Seq<char>| dedup(s).contains(x) <==> s.contains(x),
    decreases s.len(),
{
    if s.len() > 0 {
        let t = s.drop_last();
        law_dedup(t);
        assert(s =~= t.push(s.last()));
        assert forall|x: Seq<char>| t.contains(x) implies s.contains(x) by {
            let j = choose|j: int| 0 <= j < t.len() && t[j] == x;
            assert(s[j] == x);
        }
        assert forall|x: Seq<char>| s.contains(x) && x != s.last() implies t.contains(x) by {
            let j = choose|j: int| 0 <= j < s.len() && s[j] == x;
            assert(t[j] == x);
        }
        let d = dedup(t);
        if !d.contains(s.last()) {
            let n = d.push(s.last());
            assert forall|i: int, j: int| 0 <= i < n.len() && 0 <= j < n.len() && i != j implies n[i]
                != n[j] by {
                if i < d.len() && j < d.len() {
                } else if i < d.len() {
                    assert(d[i] == n[i]);
                } else {
                    assert(d[j] == n[j]);
                }
            }
            assert forall|x: Seq<char>| d.contains(x) implies n.contains(x) by {
                let j = choose|j: int| 0 <= j < d.len() && d[j] == x;
                assert(n[j] == x);
            }
            assert forall|x: Seq<char>| n.contains(x) && x != s.last() implies d.contains(x) by {
                let j = choose|j: int| 0 <= j < n.len() && n[j] == x;
                assert(d[j] == x);
            }
            assert(n[n.len() - 1] == s.last());
        }
    }
}

/// A new window is one that the later snapshot has and the earlier lacks.
pub proof fn law_fresh(after: Seq<Seq<char>>, before: Seq<Seq<char>>)
    ensures
        forall|x: Seq<char>|
            fresh(after, before).contains(x) <==> (after.contains(x) && !before.contains(x)),
    decreases after.len(),
{
    if after.len() > 0 {
        let t = after.drop_last();
        law_fresh(t, before);
        assert(after =~= t.push(after.last()));
        assert forall|x: Seq<char>| t.contains(x) implies after.contains(x) by {
            let j = choose|j: int| 0 <= j < t.len() && t[j] == x;
            assert(after[j] == x);
        }
        assert forall|x: Seq<char>| after.contains(x) && x != after.last() implies t.contains(x) by {
            let j = choose|j: int| 0 <= j < after.len() && after[j] == x;
            assert(t[j] == x);
        }
        let f = fresh(t, before);
        if !before.contains(after.last()) {
            let n = f.push(after.last());
            assert forall|x: Seq<char>| f.contains(x) implies n.contains(x) by {
                let j = choose|j: int| 0 <= j < f.len() && f[j] == x;
                assert(n[j] == x);
            }
            assert forall|x: Seq<char>| n.contains(x) && x != after.last() implies f.contains(x) by {
                let j = choose|j: int| 0 <= j < n.len() && n[j] == x;
                assert(f[j] == x);
            }
            assert(n[n.len() - 1] == after.last());
        }
    }
}

} // verus!
