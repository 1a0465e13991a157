//! Window snapping: which windows the compositor reports are visible snap
//! targets.
//!
//! - Hyprland: a client of `j/clients` counts when it is visible (older
//!   Hyprland only reports `mapped`), lives on a regular workspace
//!   (special workspaces have negative ids), and that workspace is the
//!   active one of its monitor as `j/monitors` reports it.
//! - niri: a window counts when it is in the current view of its
//!   workspace, the workspace sits on an output with a logical geometry,
//!   and its size is positive (not mid-animation or closing).
//! - sway: `GET_TREE` is walked depth first, tiled children before
//!   floating ones; a node counts when it is a window (it has an app id,
//!   or a non-zero X11 window id), sway marks it visible, and its rect has
//!   a positive size. Its label is the app id, or the X11 class for
//!   xwayland windows.
//!
//! The sockets, the JSON and the floating-point geometry are the
//! program's.

use vstd::prelude::*;

verus! {

/// What the filter reads from one `j/monitors` entry.
pub struct HyprMonitor {
    /// `id`, when it is an integer.
    pub id: Option<i64>,
    /// `name`, when it is a string.
    pub name: Option<String>,
    /// `activeWorkspace.id`, when it is an integer.
    pub active_workspace: Option<i64>,
}

/// How a client names its monitor (the schema has spelled it both ways).
pub enum MonitorRef {
    /// A number: its value when it fits an `i64`.
    Id(Option<i64>),
    /// A string: the monitor's name.
    Name(String),
    /// Absent or of another type.
    Missing,
}

/// What the filter reads from one `j/clients` entry.
pub struct HyprClient {
    /// `visible`, when it is a boolean.
    pub visible: Option<bool>,
    /// `mapped`, when it is a boolean.
    pub mapped: Option<bool>,
    /// `workspace.id`, when it is an integer.
    pub workspace: Option<i64>,
    pub monitor: MonitorRef,
}

/// The active workspace of the first monitor (in report order) that has
/// one and carries id `id`.
pub open spec fn active_by_id(mons: Seq<HyprMonitor>, id: i64) -> Option<i64>
    decreases mons.len(),
{
    if mons.len() == 0 {
        None
    } else if mons[0].active_workspace is Some && mons[0].id == Some(id) {
        mons[0].active_workspace
    } else {
        active_by_id(mons.drop_first(), id)
    }
}

/// The active workspace of the first monitor (in report order) that has
/// one and is named `name`.
pub open spec fn active_by_name(mons: Seq<HyprMonitor>, name: Seq<char>) -> Option<i64>
    decreases mons.len(),
{
    if mons.len() == 0 {
        None
    } else if mons[0].active_workspace is Some && (mons[0].name matches Some(n) && n@ == name) {
        mons[0].active_workspace
    } else {
        active_by_name(mons.drop_first(), name)
    }
}

/// Whether a client is a snap target.
pub open spec fn keeps_client(c: HyprClient, mons: Seq<HyprMonitor>) -> bool {
    let visible = match c.visible {
        Some(v) => v,
        None => match c.mapped { Some(m) => m, None => false },
    };
    &&& visible
    &&& c.workspace matches Some(ws) && ws > 0
    &&& match c.monitor {
        MonitorRef::Id(Some(id)) => active_by_id(mons, id) == c.workspace,
        MonitorRef::Name(n) => active_by_name(mons, n@) == c.workspace,
        _ => false,
    }
}

/// Hyprland's `visible` flag decides whether a client can be a target;
/// `mapped` is consulted only when `visible` is absent (older Hyprland).
/// So a client reported as not visible is never kept, whatever `mapped`
/// says, and a kept client is visible or (without `visible`) mapped.
pub proof fn lemma_visible_flag_decides_before_mapped(c: HyprClient, mons: Seq<HyprMonitor>, mapped: Option<bool>)
    ensures
        c.visible == Some(false) ==> !keeps_client(c, mons),
        keeps_client(c, mons) ==> c.visible == Some(true) || (c.visible is None && c.mapped == Some(true)),
        c.visible is Some ==> keeps_client(c, mons) == keeps_client(HyprClient { mapped, ..c }, mons),
        keeps_client(c, mons) ==> (c.workspace matches Some(ws) && ws > 0),
{
}

fn find_active_by_id(mons: &Vec<HyprMonitor>, id: i64) -> (r: Option<i64>)
    ensures
        r == active_by_id(mons@, id),
{
    let mut i: usize = 0;
    assert(mons@.subrange(0, mons@.len() as int) =~= mons@);
    while i < mons.len()
        invariant
            i <= mons.len(),
            active_by_id(mons@, id) == active_by_id(mons@.subrange(i as int, mons@.len() as int), id),
        decreases mons.len() - i,
    {
        let m = &mons[i];
        proof {
            let rest = mons@.subrange(i as int, mons@.len() as int);
            assert(rest[0] == mons@[i as int]);
            assert(rest.drop_first() =~= mons@.subrange(i as int + 1, mons@.len() as int));
        }
        if m.active_workspace.is_some() && m.id == Some(id) {
            return m.active_workspace;
        }
        i = i + 1;
    }
    None
}

fn find_active_by_name(mons: &Vec<HyprMonitor>, name: &String) -> (r: Option<i64>)
    ensures
        r == active_by_name(mons@, name@),
{
    let mut i: usize = 0;
    assert(mons@.subrange(0, mons@.len() as int) =~= mons@);
    while i < mons.len()
        invariant
            i <= mons.len(),
            active_by_name(mons@, name@) == active_by_name(mons@.subrange(i as int, mons@.len() as int), name@),
        decreases mons.len() - i,
    {
        let m = &mons[i];
        proof {
            let rest = mons@.subrange(i as int, mons@.len() as int);
            assert(rest[0] == mons@[i as int]);
            assert(rest.drop_first() =~= mons@.subrange(i as int + 1, mons@.len() as int));
        }
        let named = match &m.name {
            Some(n) => *n == *name,
            None => false,
        };
        if m.active_workspace.is_some() && named {
            return m.active_workspace;
        }
        i = i + 1;
    }
    None
}

/// Whether one client is a snap target (see [`keeps_client`]).
pub fn keep_client(c: &HyprClient, mons: &Vec<HyprMonitor>) -> (r: bool)
    ensures
        r == keeps_client(*c, mons@),
{
    let visible = match c.visible {
        Some(v) => v,
        None => match c.mapped {
            Some(m) => m,
            None => false,
        },
    };
    if !visible {
        return false;
    }
    let ws = match c.workspace {
        Some(id) if id > 0 => id,
        _ => return false,
    };
    match &c.monitor {
        MonitorRef::Id(Some(id)) => find_active_by_id(mons, *id) == Some(ws),
        MonitorRef::Name(n) => find_active_by_name(mons, n) == Some(ws),
        _ => false,
    }
}

/// The positions, in report order, of the clients that are snap targets.
pub fn visible_clients(clients: &Vec<HyprClient>, mons: &Vec<HyprMonitor>) -> (r: Vec<usize>)
    ensures
        forall|k: int| 0 <= k < r.len() ==> r@[k] < clients.len() && keeps_client(clients@[r@[k] as int], mons@),
        forall|k: int, l: int| 0 <= k < l < r.len() ==> r@[k] < r@[l],
        forall|i: int| 0 <= i < clients.len() && keeps_client(#[trigger] clients@[i], mons@) ==> r@.contains(i as usize),
{
    let mut out: Vec<usize> = Vec::new();
    let mut i: usize = 0;
    while i < clients.len()
        invariant
            i <= clients.len(),
            forall|k: int| 0 <= k < out.len() ==> out@[k] < i && keeps_client(clients@[out@[k] as int], mons@),
            forall|k: int, l: int| 0 <= k < l < out.len() ==> out@[k] < out@[l],
            forall|j: int| 0 <= j < i && keeps_client(#[trigger] clients@[j], mons@) ==> out@.contains(j as usize),
        decreases clients.len() - i,
    {
        let ghost before = out@;
        if keep_client(&clients[i], mons) {
            out.push(i);
        }
        proof {
            assert forall|j: int| 0 <= j < i + 1 && keeps_client(#[trigger] clients@[j], mons@)
                implies out@.contains(j as usize) by {
                if j < i {
                    let k = choose|k: int| 0 <= k < before.len() && before[k] == j as usize;
                    assert(out@[k] == j as usize);
                } else {
                    assert(out@[out.len() - 1] == j as usize);
                }
            }
        }
        i = i + 1;
    }
    out
}

/// What the filter reads from one niri window.
pub struct NiriWindow {
    /// `workspace_id`.
    pub workspace_id: Option<u64>,
    /// Whether `layout.tile_pos_in_workspace_view` is present (niri leaves
    /// it out for windows scrolled out of view).
    pub in_view: bool,
    /// `layout.window_size`.
    pub width: i32,
    pub height: i32,
}

/// What the filter reads from one niri workspace.
pub struct NiriWorkspace {
    pub id: u64,
    /// The name of the output it is on.
    pub output: Option<String>,
}

/// What the filter reads from one niri output.
pub struct NiriOutput {
    pub name: String,
    /// Whether the output reports a logical geometry (it does when enabled).
    pub has_logical: bool,
}

/// The output named by the workspace with id `id`: when ids repeat the
/// last workspace wins (a map built from the list keeps the last entry).
pub open spec fn workspace_output(wss: Seq<NiriWorkspace>, id: u64) -> Option<Option<String>>
    decreases wss.len(),
{
    if wss.len() == 0 {
        None
    } else if wss.last().id == id {
        Some(wss.last().output)
    } else {
        workspace_output(wss.drop_last(), id)
    }
}

/// The position of the first output named `name`.
pub open spec fn output_named(outs: Seq<NiriOutput>, name: Seq<char>) -> Option<int>
    decreases outs.len(),
{
    if outs.len() == 0 {
        None
    } else if outs[0].name@ == name {
        Some(0)
    } else {
        match output_named(outs.drop_first(), name) {
            Some(i) => Some(i + 1),
            None => None,
        }
    }
}

/// The output a niri window is a snap target on, if it is one.
pub open spec fn niri_target(w: NiriWindow, wss: Seq<NiriWorkspace>, outs: Seq<NiriOutput>) -> Option<int> {
    if !w.in_view || w.width <= 0 || w.height <= 0 {
        None
    } else {
        match w.workspace_id {
            Some(id) => match workspace_output(wss, id) {
                Some(Some(name)) => match output_named(outs, name@) {
                    Some(o) => if outs[o].has_logical { Some(o) } else { None },
                    None => None,
                },
                _ => None,
            },
            None => None,
        }
    }
}

fn find_workspace_output(wss: &Vec<NiriWorkspace>, id: u64) -> (r: Option<Option<String>>)
    ensures
        match (r, workspace_output(wss@, id)) {
            (Some(Some(a)), Some(Some(b))) => a@ == b@,
            (Some(None), Some(None)) => true,
            (None, None) => true,
            _ => false,
        },
{
    let mut i: usize = wss.len();
    assert(wss@.subrange(0, wss@.len() as int) =~= wss@);
    while i > 0
        invariant
            i <= wss.len(),
            workspace_output(wss@, id) == workspace_output(wss@.subrange(0, i as int), id),
        decreases i,
    {
        proof {
            let pre = wss@.subrange(0, i as int);
            assert(pre.last() == wss@[i - 1]);
            assert(pre.drop_last() =~= wss@.subrange(0, i - 1));
        }
        if wss[i - 1].id == id {
            return Some(wss[i - 1].output.clone());
        }
        i = i - 1;
    }
    None
}

fn find_output(outs: &Vec<NiriOutput>, name: &String) -> (r: Option<usize>)
    ensures
        match r {
            Some(i) => output_named(outs@, name@) == Some(i as int),
            None => output_named(outs@, name@) is None,
        },
{
    let mut i: usize = 0;
    assert(outs@.subrange(0, outs@.len() as int) =~= outs@);
    while i < outs.len()
        invariant
            i <= outs.len(),
            output_named(outs@, name@) == (match output_named(outs@.subrange(i as int, outs@.len() as int), name@) {
                Some(k) => Some(k + i),
                None => None,
            }),
        decreases outs.len() - i,
    {
        proof {
            let rest = outs@.subrange(i as int, outs@.len() as int);
            assert(rest[0] == outs@[i as int]);
            assert(rest.drop_first() =~= outs@.subrange(i as int + 1, outs@.len() as int));
        }
        if outs[i].name == *name {
            return Some(i);
        }
        i = i + 1;
    }
    proof {
        assert(outs@.subrange(i as int, outs@.len() as int).len() == 0);
    }
    None
}

/// The output a niri window is a snap target on (see [`niri_target`]).
pub fn niri_window_output(w: &NiriWindow, wss: &Vec<NiriWorkspace>, outs: &Vec<NiriOutput>) -> (r: Option<usize>)
    ensures
        match r {
            Some(o) => niri_target(*w, wss@, outs@) == Some(o as int),
            None => niri_target(*w, wss@, outs@) is None,
        },
{
    proof {
        assert(outs@.subrange(0, outs@.len() as int) =~= outs@);
        assert(wss@.subrange(0, wss@.len() as int) =~= wss@);
    }
    if !w.in_view || w.width <= 0 || w.height <= 0 {
        return None;
    }
    let id = match w.workspace_id {
        Some(id) => id,
        None => return None,
    };
    let name = match find_workspace_output(wss, id) {
        Some(Some(name)) => name,
        _ => return None,
    };
    match find_output(outs, &name) {
        Some(o) => {
            proof {
                lemma_output_named_in_range(outs@, name@);
            }
            if outs[o].has_logical { Some(o) } else { None }
        },
        None => None,
    }
}

proof fn lemma_output_named_in_range(outs: Seq<NiriOutput>, name: Seq<char>)
    ensures
        output_named(outs, name) matches Some(i) ==> 0 <= i < outs.len() && outs[i].name@ == name,
    decreases outs.len(),
{
    if outs.len() > 0 && outs[0].name@ != name {
        lemma_output_named_in_range(outs.drop_first(), name);
    }
}

/// Milliseconds of a focus timestamp (seconds and nanoseconds), the
/// stacking tiebreaker; 0 when the compositor gives none.
pub fn focus_recency(ts: Option<(u64, u32)>) -> (r: u64)
    requires
        ts matches Some((secs, nanos)) ==> secs * 1000 + nanos / 1_000_000 <= u64::MAX,
    ensures
        r == (match ts { Some((secs, nanos)) => secs * 1000 + nanos / 1_000_000, None => 0 }),
{
    match ts {
        Some((secs, nanos)) => secs * 1000 + (nanos / 1_000_000) as u64,
        None => 0,
    }
}


/// A sway container rect (integers in the i3 IPC).
#[derive(Clone, Copy, Debug, PartialEq, Eq)]
pub struct SwayRect {
    pub x: i64,
    pub y: i64,
    pub width: i64,
    pub height: i64,
}

/// What the walk reads from one node of sway's `GET_TREE` reply.
pub struct SwayNode {
    /// `app_id`, when it is a string.
    pub app_id: Option<String>,
    /// `window`, the X11 window id, when it is an integer.
    pub window: Option<i64>,
    /// `visible`, when it is a boolean.
    pub visible: Option<bool>,
    /// `focused`, when it is a boolean.
    pub focused: Option<bool>,
    /// `rect`, when the node has one (missing numbers read as 0).
    pub rect: Option<SwayRect>,
    /// `window_properties.class`, when it is a string.
    pub class: Option<String>,
    /// `nodes`: the tiled children.
    pub nodes: Vec<SwayNode>,
    /// `floating_nodes`: the floating children.
    pub floating_nodes: Vec<SwayNode>,
}

/// A visible sway window.
pub struct SwayWindow {
    pub rect: SwayRect,
    pub app_id: String,
    pub focused: bool,
}

/// The mathematical content of a [`SwayWindow`].
pub struct SwayWindowView {
    pub rect: SwayRect,
    pub app_id: Seq<char>,
    pub focused: bool,
}

impl View for SwayWindow {
    type V = SwayWindowView;

    open spec fn view(&self) -> SwayWindowView {
        SwayWindowView { rect: self.rect, app_id: self.app_id@, focused: self.focused }
    }
}

/// The views of a list of windows.
pub open spec fn window_views(ws: Seq<SwayWindow>) -> Seq<SwayWindowView> {
    ws.map_values(|w: SwayWindow| w@)
}

/// A node is a window when it has an app id or a non-zero X11 window id.
pub open spec fn is_sway_window(n: SwayNode) -> bool {
    n.app_id is Some || (n.window matches Some(w) && w != 0)
}

/// A node is a snap target when it is a visible window with a positive size.
pub open spec fn sway_shown(n: SwayNode) -> bool {
    &&& is_sway_window(n)
    &&& n.visible == Some(true)
    &&& n.rect matches Some(r) && r.width > 0 && r.height > 0
}

/// A window's label: its app id, else its X11 class, else empty.
pub open spec fn sway_label(n: SwayNode) -> Seq<char> {
    match n.app_id {
        Some(a) => a@,
        None => match n.class {
            Some(c) => c@,
            None => Seq::empty(),
        },
    }
}

/// What a node contributes by itself.
pub open spec fn sway_own(n: SwayNode) -> Seq<SwayWindowView> {
    if sway_shown(n) {
        seq![SwayWindowView { rect: n.rect->0, app_id: sway_label(n), focused: n.focused == Some(true) }]
    } else {
        Seq::empty()
    }
}

/// The visible windows of a subtree, depth first: the node itself, then
/// its tiled children, then its floating children.
pub open spec fn sway_walk(n: SwayNode) -> Seq<SwayWindowView>
    decreases n,
{
    sway_own(n) + sway_walk_all(n.nodes@) + sway_walk_all(n.floating_nodes@)
}

/// The visible windows of a list of subtrees, in order.
pub open spec fn sway_walk_all(ns: Seq<SwayNode>) -> Seq<SwayWindowView>
    decreases ns,
{
    if ns.len() == 0 {
        Seq::empty()
    } else {
        sway_walk_all(ns.drop_last()) + sway_walk(ns.last())
    }
}

fn sway_visit_own(n: &SwayNode, out: &mut Vec<SwayWindow>)
    ensures
        window_views(final(out)@) == window_views(old(out)@) + sway_own(*n),
{
    let shown = is_window_exec(n) && n.visible == Some(true) && match &n.rect {
        Some(r) => r.width > 0 && r.height > 0,
        None => false,
    };
    if shown {
        let rect = match &n.rect {
            Some(r) => *r,
            None => SwayRect { x: 0, y: 0, width: 0, height: 0 },
        };
        let app_id = match &n.app_id {
            Some(a) => a.clone(),
            None => match &n.class {
                Some(c) => c.clone(),
                None => String::new(),
            },
        };
        let focused = n.focused == Some(true);
        let ghost before = out@;
        out.push(SwayWindow { rect, app_id, focused });
        assert(window_views(out@) =~= window_views(before) + sway_own(*n));
    } else {
        assert(window_views(out@) =~= window_views(out@) + sway_own(*n));
    }
}

fn is_window_exec(n: &SwayNode) -> (r: bool)
    ensures
        r == is_sway_window(*n),
{
    n.app_id.is_some() || match n.window {
        Some(w) => w != 0,
        None => false,
    }
}

fn sway_visit_all(ns: &Vec<SwayNode>, out: &mut Vec<SwayWindow>)
    ensures
        window_views(final(out)@) == window_views(old(out)@) + sway_walk_all(ns@),
    decreases ns@, 0int,
{
    let ghost start = window_views(out@);
    let mut i: usize = 0;
    assert(ns@.subrange(0, 0) =~= Seq::<SwayNode>::empty());
    assert(window_views(out@) =~= start + sway_walk_all(ns@.subrange(0, 0)));
    while i < ns.len()
        invariant
            i <= ns.len(),
            window_views(out@) == start + sway_walk_all(ns@.subrange(0, i as int)),
        decreases ns.len() - i,
    {
        let ghost mid = window_views(out@);
        assert(decreases_to!(ns@ => ns@[i as int]));
        sway_visit(&ns[i], out);
        proof {
            let pre = ns@.subrange(0, i as int + 1);
            assert(pre.drop_last() =~= ns@.subrange(0, i as int));
            assert(pre.last() == ns@[i as int]);
            assert(window_views(out@) =~= start + sway_walk_all(pre));
        }
        i = i + 1;
    }
    assert(ns@.subrange(0, ns@.len() as int) =~= ns@);
}

fn sway_visit(n: &SwayNode, out: &mut Vec<SwayWindow>)
    ensures
        window_views(final(out)@) == window_views(old(out)@) + sway_walk(*n),
    decreases *n, 0int,
{
    let ghost start = window_views(out@);
    sway_visit_own(n, out);
    let ghost a = window_views(out@);
    assert(decreases_to!(*n => n.nodes@));
    sway_visit_all(&n.nodes, out);
    let ghost b = window_views(out@);
    assert(decreases_to!(*n => n.floating_nodes@));
    sway_visit_all(&n.floating_nodes, out);
    assert(window_views(out@) =~= start + sway_walk(*n));
}

/// The visible windows of sway's tree (see [`sway_walk`]).
pub fn sway_windows(tree: &SwayNode) -> (r: Vec<SwayWindow>)
    ensures
        window_views(r@) == sway_walk(*tree),
{
    let mut out: Vec<SwayWindow> = Vec::new();
    assert(window_views(out@) =~= Seq::<SwayWindowView>::empty());
    sway_visit(tree, &mut out);
    assert(window_views(out@) =~= sway_walk(*tree));
    out
}

} // verus!
