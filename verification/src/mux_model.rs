//! The mathematical model of the multiplexer: plain maps from ids to
//! workspaces, windows, tabs and panes, the invariant that makes them a
//! consistent hierarchy, and the effect of each operation on them.
use vstd::prelude::*;

use crate::api::{Event, HandleKind, NativeHandle, PaneId, TabId, WindowId, WorkspaceId};
use crate::text::decimal;
use crate::tree::{lemma_split_panes, lemma_without_panes, panes_after_split, panes_without, PaneNode};

verus! {

/// A pane: the tab that owns it and the input queued for its process.
pub struct PaneView {
    pub tab: TabId,
    pub pending_input: Seq<u8>,
}

/// A tab: its window, its layout tree, its focused pane and whether that
/// pane is zoomed to fill the tab.
pub struct TabView {
    pub window: WindowId,
    pub root: PaneNode,
    pub active_pane: PaneId,
    pub zoomed: bool,
}

/// A window: its workspace, its tabs in display order and the active tab.
pub struct WindowView {
    pub workspace: WorkspaceId,
    pub tabs: Seq<TabId>,
    pub active_tab: TabId,
}

/// A workspace: its unique name, its windows and the active window.
pub struct WorkspaceView {
    pub name: Seq<char>,
    pub windows: Seq<WindowId>,
    pub active_window: WindowId,
}

/// The whole multiplexer. Objects are keyed by their raw id; `next_id` is
/// the next id to hand out.
pub struct MuxView {
    pub next_id: u64,
    pub workspaces: Map<u64, WorkspaceView>,
    pub windows: Map<u64, WindowView>,
    pub tabs: Map<u64, TabView>,
    pub panes: Map<u64, PaneView>,
    pub current_workspace: WorkspaceId,
    pub events: Seq<Event>,
}

/// Ids listed in strictly increasing order, each a live key below `next`,
/// and every live key listed.
pub open spec fn order_ok(order: Seq<u64>, keys: Set<u64>, next: u64) -> bool {
    &&& forall|i: int, j: int| 0 <= i < j < order.len() ==> order[i] < order[j]
    &&& forall|i: int| 0 <= i < order.len() ==> keys.contains(#[trigger] order[i]) && order[i] < next
    &&& forall|k: u64| keys.contains(k) ==> #[trigger] order.contains(k)
}

impl MuxView {
    pub open spec fn workspace_ok(self, w: u64) -> bool {
        let s = self.workspaces[w];
        &&& s.windows.len() > 0
        &&& s.windows.no_duplicates()
        &&& s.windows.contains(s.active_window)
        &&& forall|i: int|
            0 <= i < s.windows.len() ==> self.windows.contains_key(#[trigger] s.windows[i].0)
                && self.windows[s.windows[i].0].workspace == WorkspaceId(w)
    }

    pub open spec fn window_ok(self, n: u64) -> bool {
        let s = self.windows[n];
        &&& self.workspaces.contains_key(s.workspace.0)
        &&& self.workspaces[s.workspace.0].windows.contains(WindowId(n))
        &&& s.tabs.len() > 0
        &&& s.tabs.no_duplicates()
        &&& s.tabs.contains(s.active_tab)
        &&& forall|i: int|
            0 <= i < s.tabs.len() ==> self.tabs.contains_key(#[trigger] s.tabs[i].0)
                && self.tabs[s.tabs[i].0].window == WindowId(n)
    }

    pub open spec fn tab_ok(self, t: u64) -> bool {
        let s = self.tabs[t];
        let ps = s.root.spec_panes();
        &&& self.windows.contains_key(s.window.0)
        &&& self.windows[s.window.0].tabs.contains(TabId(t))
        &&& ps.no_duplicates()
        &&& ps.contains(s.active_pane)
        &&& forall|i: int|
            0 <= i < ps.len() ==> self.panes.contains_key(#[trigger] ps[i].0)
                && self.panes[ps[i].0].tab == TabId(t)
    }

    pub open spec fn pane_ok(self, p: u64) -> bool {
        let s = self.panes[p];
        &&& self.tabs.contains_key(s.tab.0)
        &&& self.tabs[s.tab.0].root.spec_panes().contains(PaneId(p))
    }

    /// The hierarchy is a consistent forest and the id bookkeeping is sound.
    pub open spec fn structure_ok(self) -> bool {
        &&& forall|w: u64| #[trigger] self.workspaces.contains_key(w) ==> self.workspace_ok(w)
        &&& forall|n: u64| #[trigger] self.windows.contains_key(n) ==> self.window_ok(n)
        &&& forall|t: u64| #[trigger] self.tabs.contains_key(t) ==> self.tab_ok(t)
        &&& forall|p: u64| #[trigger] self.panes.contains_key(p) ==> self.pane_ok(p)
        &&& forall|a: u64, b: u64|
            #[trigger] self.workspaces.contains_key(a) && #[trigger] self.workspaces.contains_key(
                b,
            ) && a != b ==> self.workspaces[a].name != self.workspaces[b].name
        &&& self.ids_below()
    }

    /// Every live id was handed out before `next_id`.
    pub open spec fn ids_below(self) -> bool {
        &&& forall|k: u64| #[trigger] self.workspaces.contains_key(k) ==> k < self.next_id
        &&& forall|k: u64| #[trigger] self.windows.contains_key(k) ==> k < self.next_id
        &&& forall|k: u64| #[trigger] self.tabs.contains_key(k) ==> k < self.next_id
        &&& forall|k: u64| #[trigger] self.panes.contains_key(k) ==> k < self.next_id
    }

    /// A consistent hierarchy with a live current workspace.
    pub open spec fn wf(self) -> bool {
        &&& self.structure_ok()
        &&& self.workspaces.contains_key(self.current_workspace.0)
    }

    /// Whether `count` more ids can be allocated.
    pub open spec fn has_room(self, count: u64) -> bool {
        self.next_id as int + count as int <= u64::MAX as int
    }

    pub open spec fn current_window(self) -> WindowId {
        self.workspaces[self.current_workspace.0].active_window
    }

    pub open spec fn current_tab(self) -> TabId {
        self.windows[self.current_window().0].active_tab
    }

    pub open spec fn current_pane(self) -> PaneId {
        self.tabs[self.current_tab().0].active_pane
    }

    /// Adds a complete workspace named `name`: one window holding one tab
    /// holding one pane, with fresh ids.
    pub open spec fn with_new_workspace(self, name: Seq<char>) -> MuxView {
        let w = self.next_id;
        let n = (self.next_id + 1) as u64;
        let t = (self.next_id + 2) as u64;
        let p = (self.next_id + 3) as u64;
        MuxView {
            next_id: (self.next_id + 4) as u64,
            workspaces: self.workspaces.insert(
                w,
                WorkspaceView { name, windows: seq![WindowId(n)], active_window: WindowId(n) },
            ),
            windows: self.windows.insert(
                n,
                WindowView { workspace: WorkspaceId(w), tabs: seq![TabId(t)], active_tab: TabId(t) },
            ),
            tabs: self.tabs.insert(
                t,
                TabView {
                    window: WindowId(n),
                    root: PaneNode::Leaf(PaneId(p)),
                    active_pane: PaneId(p),
                    zoomed: false,
                },
            ),
            panes: self.panes.insert(p, PaneView { tab: TabId(t), pending_input: seq![] }),
            ..self
        }
    }

    /// Window `n` with `tab` active.
    pub open spec fn set_active_tab(self, n: u64, tab: TabId) -> MuxView {
        MuxView {
            windows: self.windows.insert(n, WindowView { active_tab: tab, ..self.windows[n] }),
            ..self
        }
    }

    /// Workspace `w` with `window` active.
    pub open spec fn set_active_window(self, w: u64, window: WindowId) -> MuxView {
        MuxView {
            workspaces: self.workspaces.insert(
                w,
                WorkspaceView { active_window: window, ..self.workspaces[w] },
            ),
            ..self
        }
    }

    /// Tab `t` with `pane` focused.
    pub open spec fn set_active_pane(self, t: u64, pane: PaneId) -> MuxView {
        MuxView { tabs: self.tabs.insert(t, TabView { active_pane: pane, ..self.tabs[t] }), ..self }
    }

    pub open spec fn set_current(self, workspace: WorkspaceId) -> MuxView {
        MuxView { current_workspace: workspace, ..self }
    }

    pub open spec fn push_event(self, event: Event) -> MuxView {
        MuxView { events: self.events.push(event), ..self }
    }

    /// Makes tab `t` the active tab of its window, that window the active
    /// window of its workspace, and that workspace current.
    pub open spec fn focus_tab(self, t: u64) -> MuxView {
        let n = self.tabs[t].window;
        let w = self.windows[n.0].workspace;
        self.set_active_tab(n.0, TabId(t)).set_active_window(w.0, n).set_current(w)
    }

    /// The ids, names, containment lists and trees agree; only the active
    /// selections, zoom flags, queued input, current workspace and events may differ.
    pub open spec fn same_shape(self, other: MuxView) -> bool {
        &&& self.next_id == other.next_id
        &&& self.workspaces.dom() == other.workspaces.dom()
        &&& self.windows.dom() == other.windows.dom()
        &&& self.tabs.dom() == other.tabs.dom()
        &&& self.panes.dom() == other.panes.dom()
        &&& forall|w: u64| #[trigger]
            self.workspaces.contains_key(w) ==> self.workspaces[w].name == other.workspaces[w].name
                && self.workspaces[w].windows == other.workspaces[w].windows
        &&& forall|n: u64| #[trigger]
            self.windows.contains_key(n) ==> self.windows[n].workspace == other.windows[n].workspace
                && self.windows[n].tabs == other.windows[n].tabs
        &&& forall|t: u64| #[trigger]
            self.tabs.contains_key(t) ==> self.tabs[t].window == other.tabs[t].window
                && self.tabs[t].root == other.tabs[t].root
        &&& forall|p: u64| #[trigger]
            self.panes.contains_key(p) ==> self.panes[p].tab == other.panes[p].tab
    }

    /// Every active selection points at a member of its container.
    pub open spec fn selections_ok(self) -> bool {
        &&& forall|w: u64| #[trigger]
            self.workspaces.contains_key(w) ==> self.workspaces[w].windows.contains(
                self.workspaces[w].active_window,
            )
        &&& forall|n: u64| #[trigger]
            self.windows.contains_key(n) ==> self.windows[n].tabs.contains(
                self.windows[n].active_tab,
            )
        &&& forall|t: u64| #[trigger]
            self.tabs.contains_key(t) ==> self.tabs[t].root.spec_panes().contains(
                self.tabs[t].active_pane,
            )
    }

    /// Focuses `pane` within its tab and focuses that tab.
    pub open spec fn after_activate_pane(self, p: u64) -> MuxView {
        let t = self.panes[p].tab.0;
        self.set_active_pane(t, PaneId(p)).focus_tab(t).push_event(
            Event::PaneFocused { pane: PaneId(p) },
        )
    }

    /// Focuses tab `t`, keeping its focused pane.
    pub open spec fn after_activate_tab(self, t: u64) -> MuxView {
        self.focus_tab(t).push_event(Event::PaneFocused { pane: self.tabs[t].active_pane })
    }

    /// Makes window `n` active in its workspace and that workspace current.
    pub open spec fn after_activate_window(self, n: u64) -> MuxView {
        let w = self.windows[n].workspace;
        let r = self.set_active_window(w.0, WindowId(n)).set_current(w);
        r.push_event(Event::WorkspaceChanged { workspace: w }).push_event(
            Event::PaneFocused { pane: r.current_pane() },
        )
    }

    /// Makes workspace `w` current, restoring its own active window, tab and pane.
    pub open spec fn after_activate_workspace(self, w: u64) -> MuxView {
        let r = self.set_current(WorkspaceId(w));
        r.push_event(Event::WorkspaceChanged { workspace: WorkspaceId(w) }).push_event(
            Event::PaneFocused { pane: r.current_pane() },
        )
    }

    /// Flips the zoom flag of the current tab.
    pub open spec fn after_toggle_zoom(self) -> MuxView {
        let t = self.current_tab().0;
        MuxView {
            tabs: self.tabs.insert(t, TabView { zoomed: !self.tabs[t].zoomed, ..self.tabs[t] }),
            ..self
        }
    }

    /// Pane `p` with `bytes` appended to its queued input.
    pub open spec fn with_queued_input(self, p: u64, bytes: Seq<u8>) -> MuxView {
        MuxView {
            panes: self.panes.insert(
                p,
                PaneView {
                    pending_input: self.panes[p].pending_input + bytes,
                    ..self.panes[p]
                },
            ),
            ..self
        }
    }

    /// Pane `p` with its queued input removed.
    pub open spec fn with_cleared_input(self, p: u64) -> MuxView {
        MuxView {
            panes: self.panes.insert(p, PaneView { pending_input: Seq::empty(), ..self.panes[p] }),
            ..self
        }
    }

    /// Adds a tab holding one new pane at the end of window `n` and makes it
    /// the window's active tab.
    pub open spec fn with_new_tab(self, n: u64) -> MuxView {
        let t = self.next_id;
        let p = (self.next_id + 1) as u64;
        MuxView {
            next_id: (self.next_id + 2) as u64,
            windows: self.windows.insert(
                n,
                WindowView {
                    tabs: self.windows[n].tabs.push(TabId(t)),
                    active_tab: TabId(t),
                    ..self.windows[n]
                },
            ),
            tabs: self.tabs.insert(
                t,
                TabView {
                    window: WindowId(n),
                    root: PaneNode::Leaf(PaneId(p)),
                    active_pane: PaneId(p),
                    zoomed: false,
                },
            ),
            panes: self.panes.insert(p, PaneView { tab: TabId(t), pending_input: seq![] }),
            ..self
        }
    }

    /// The effect of opening a tab in window `n`: the pane is focused when
    /// `n` is the current window.
    pub open spec fn after_new_tab(self, n: u64) -> MuxView {
        let t = TabId(self.next_id);
        let p = PaneId((self.next_id + 1) as u64);
        let r = self.with_new_tab(n).push_event(Event::TabCreated { tab: t }).push_event(
            Event::PaneCreated { pane: p },
        );
        if self.current_window() == WindowId(n) {
            r.push_event(Event::PaneFocused { pane: p })
        } else {
            r
        }
    }

    /// Adds a window with one tab and one pane to workspace `w` and makes it
    /// the workspace's active window.
    pub open spec fn with_new_window(self, w: u64) -> MuxView {
        let n = self.next_id;
        let t = (self.next_id + 1) as u64;
        let p = (self.next_id + 2) as u64;
        MuxView {
            next_id: (self.next_id + 3) as u64,
            workspaces: self.workspaces.insert(
                w,
                WorkspaceView {
                    windows: self.workspaces[w].windows.push(WindowId(n)),
                    active_window: WindowId(n),
                    ..self.workspaces[w]
                },
            ),
            windows: self.windows.insert(
                n,
                WindowView { workspace: WorkspaceId(w), tabs: seq![TabId(t)], active_tab: TabId(t) },
            ),
            tabs: self.tabs.insert(
                t,
                TabView {
                    window: WindowId(n),
                    root: PaneNode::Leaf(PaneId(p)),
                    active_pane: PaneId(p),
                    zoomed: false,
                },
            ),
            panes: self.panes.insert(p, PaneView { tab: TabId(t), pending_input: seq![] }),
            ..self
        }
    }

    /// The effect of creating a window in workspace `w`, which becomes current.
    pub open spec fn after_create_window(self, w: u64) -> MuxView {
        let n = WindowId(self.next_id);
        let t = TabId((self.next_id + 1) as u64);
        let p = PaneId((self.next_id + 2) as u64);
        self.with_new_window(w).set_current(WorkspaceId(w)).push_event(
            Event::WindowCreated { window: n },
        ).push_event(Event::TabCreated { tab: t }).push_event(
            Event::PaneCreated { pane: p },
        ).push_event(Event::PaneFocused { pane: p })
    }

    /// Tab `t` with layout `root`, focused on a new pane, which is registered.
    pub open spec fn with_split_tab(self, t: u64, root: PaneNode) -> MuxView {
        let q = self.next_id;
        MuxView {
            next_id: (self.next_id + 1) as u64,
            tabs: self.tabs.insert(t, TabView { root, active_pane: PaneId(q), ..self.tabs[t] }),
            panes: self.panes.insert(q, PaneView { tab: TabId(t), pending_input: seq![] }),
            ..self
        }
    }

    /// The effect of splitting pane `p` when its tab's new layout is `root`.
    pub open spec fn after_split(self, p: u64, root: PaneNode) -> MuxView {
        let t = self.panes[p].tab.0;
        let q = PaneId(self.next_id);
        self.with_split_tab(t, root).focus_tab(t).push_event(Event::PaneCreated { pane: q }).push_event(
            Event::PaneFocused { pane: q },
        )
    }

    /// Whether some workspace is named `name`.
    pub open spec fn has_workspace_named(self, name: Seq<char>) -> bool {
        exists|w: u64| #[trigger] self.workspaces.contains_key(w) && self.workspaces[w].name == name
    }
}

/// The model of a freshly started multiplexer.
pub open spec fn initial_view() -> MuxView {
    let empty = MuxView {
        next_id: 1,
        workspaces: Map::empty(),
        windows: Map::empty(),
        tabs: Map::empty(),
        panes: Map::empty(),
        current_workspace: WorkspaceId(1),
        events: seq![],
    };
    empty.with_new_workspace("Workspace 1"@)
}

/// Adding an id above all listed ids keeps an order sound.
pub proof fn lemma_order_push(order: Seq<u64>, keys: Set<u64>, next: u64, k: u64, new_next: u64)
    requires
        order_ok(order, keys, next),
        next <= k < new_next,
    ensures
        order_ok(order.push(k), keys.insert(k), new_next),
{
    let o = order.push(k);
    assert forall|x: u64| keys.insert(k).contains(x) implies #[trigger] o.contains(x) by {
        if x == k {
            assert(o[order.len() as int] == k);
        } else {
            assert(order.contains(x));
            let i = choose|i: int| 0 <= i < order.len() && order[i] == x;
            assert(o[i] == x);
        }
    }
    assert forall|i: int| 0 <= i < o.len() implies keys.insert(k).contains(#[trigger] o[i]) && o[i]
        < new_next by {
        if i < order.len() {
            assert(o[i] == order[i]);
        }
    }
}

/// Raising the id bound keeps an order sound.
pub proof fn lemma_order_raise(order: Seq<u64>, keys: Set<u64>, next: u64, new_next: u64)
    requires
        order_ok(order, keys, next),
        next <= new_next,
    ensures
        order_ok(order, keys, new_next),
{
}

/// Adding a workspace with a new name keeps the hierarchy consistent.
pub proof fn lemma_new_workspace_structure(v: MuxView, name: Seq<char>)
    requires
        v.structure_ok(),
        v.has_room(4),
        !v.has_workspace_named(name),
    ensures
        v.with_new_workspace(name).structure_ok(),
{
    let r = v.with_new_workspace(name);
    let w = v.next_id;
    let n = (v.next_id + 1) as u64;
    let t = (v.next_id + 2) as u64;
    let p = (v.next_id + 3) as u64;
    assert(!v.workspaces.contains_key(w));
    assert(!v.windows.contains_key(n));
    assert(!v.tabs.contains_key(t));
    assert(!v.panes.contains_key(p));
    assert(seq![PaneId(p)].contains(PaneId(p))) by {
        assert(seq![PaneId(p)][0] == PaneId(p));
    }
    assert(seq![TabId(t)].contains(TabId(t))) by {
        assert(seq![TabId(t)][0] == TabId(t));
    }
    assert(seq![WindowId(n)].contains(WindowId(n))) by {
        assert(seq![WindowId(n)][0] == WindowId(n));
    }
    assert forall|x: u64| #[trigger] r.workspaces.contains_key(x) implies r.workspace_ok(x) by {
        if x != w {
            assert(v.workspace_ok(x));
            let s = v.workspaces[x];
            assert forall|i: int| 0 <= i < s.windows.len() implies r.windows.contains_key(
                #[trigger] s.windows[i].0,
            ) && r.windows[s.windows[i].0].workspace == WorkspaceId(x) by {
                assert(v.windows.contains_key(s.windows[i].0));
            }
        }
    }
    assert forall|x: u64| #[trigger] r.windows.contains_key(x) implies r.window_ok(x) by {
        if x != n {
            assert(v.window_ok(x));
            let s = v.windows[x];
            assert(s.workspace.0 != w);
            assert forall|i: int| 0 <= i < s.tabs.len() implies r.tabs.contains_key(
                #[trigger] s.tabs[i].0,
            ) && r.tabs[s.tabs[i].0].window == WindowId(x) by {
                assert(v.tabs.contains_key(s.tabs[i].0));
            }
        }
    }
    assert forall|x: u64| #[trigger] r.tabs.contains_key(x) implies r.tab_ok(x) by {
        if x != t {
            assert(v.tab_ok(x));
            let s = v.tabs[x];
            let ps = s.root.spec_panes();
            assert(s.window.0 != n);
            assert forall|i: int| 0 <= i < ps.len() implies r.panes.contains_key(
                #[trigger] ps[i].0,
            ) && r.panes[ps[i].0].tab == TabId(x) by {
                assert(v.panes.contains_key(ps[i].0));
            }
        } else {
            reveal_with_fuel(PaneNode::spec_panes, 2);
            let ps = r.tabs[x].root.spec_panes();
            assert(ps =~= seq![PaneId(p)]);
        }
    }
    assert forall|x: u64| #[trigger] r.panes.contains_key(x) implies r.pane_ok(x) by {
        if x != p {
            assert(v.pane_ok(x));
            assert(v.panes[x].tab.0 != t);
        } else {
            assert(r.tabs[t].root.spec_panes() =~= seq![PaneId(p)]);
        }
    }
    assert forall|a: u64, b: u64|
        #[trigger] r.workspaces.contains_key(a) && #[trigger] r.workspaces.contains_key(b) && a
            != b implies r.workspaces[a].name != r.workspaces[b].name by {
        if a == w && v.workspaces.contains_key(b) {
            assert(v.workspaces[b].name != name);
        }
        if b == w && v.workspaces.contains_key(a) {
            assert(v.workspaces[a].name != name);
        }
    }
    assert(r.workspaces.dom() == v.workspaces.dom().insert(w));
    assert(r.windows.dom() == v.windows.dom().insert(n));
    assert(r.tabs.dom() == v.tabs.dom().insert(t));
    assert(r.panes.dom() == v.panes.dom().insert(p));
}

/// Changing only selections, flags, queued input, the current workspace or
/// the event log keeps the hierarchy consistent when the selections are valid.
pub proof fn lemma_same_shape(a: MuxView, b: MuxView)
    requires
        a.structure_ok(),
        a.same_shape(b),
        b.selections_ok(),
    ensures
        b.structure_ok(),
{
    assert forall|w: u64| #[trigger] b.workspaces.contains_key(w) implies b.workspace_ok(w) by {
        assert(a.workspace_ok(w));
        let s = b.workspaces[w];
        assert forall|i: int| 0 <= i < s.windows.len() implies b.windows.contains_key(
            #[trigger] s.windows[i].0,
        ) && b.windows[s.windows[i].0].workspace == WorkspaceId(w) by {
            assert(a.windows.contains_key(a.workspaces[w].windows[i].0));
        }
    }
    assert forall|n: u64| #[trigger] b.windows.contains_key(n) implies b.window_ok(n) by {
        assert(a.window_ok(n));
        let s = b.windows[n];
        assert(a.workspaces.contains_key(s.workspace.0));
        assert forall|i: int| 0 <= i < s.tabs.len() implies b.tabs.contains_key(
            #[trigger] s.tabs[i].0,
        ) && b.tabs[s.tabs[i].0].window == WindowId(n) by {
            assert(a.tabs.contains_key(a.windows[n].tabs[i].0));
        }
    }
    assert forall|t: u64| #[trigger] b.tabs.contains_key(t) implies b.tab_ok(t) by {
        assert(a.tab_ok(t));
        let s = b.tabs[t];
        let ps = s.root.spec_panes();
        assert(a.windows.contains_key(s.window.0));
        assert forall|i: int| 0 <= i < ps.len() implies b.panes.contains_key(#[trigger] ps[i].0)
            && b.panes[ps[i].0].tab == TabId(t) by {
            assert(a.panes.contains_key(ps[i].0));
        }
    }
    assert forall|p: u64| #[trigger] b.panes.contains_key(p) implies b.pane_ok(p) by {
        assert(a.pane_ok(p));
        assert(a.tabs.contains_key(b.panes[p].tab.0));
    }
    assert forall|x: u64, y: u64|
        #[trigger] b.workspaces.contains_key(x) && #[trigger] b.workspaces.contains_key(y) && x
            != y implies b.workspaces[x].name != b.workspaces[y].name by {
        assert(a.workspaces.contains_key(x) && a.workspaces.contains_key(y));
    }
}

/// A consistent hierarchy has valid selections.
pub proof fn lemma_structure_selections(v: MuxView)
    requires
        v.structure_ok(),
    ensures
        v.selections_ok(),
{
    assert forall|w: u64| #[trigger] v.workspaces.contains_key(w) implies v.workspaces[w].windows.contains(
        v.workspaces[w].active_window,
    ) by {
        assert(v.workspace_ok(w));
    }
    assert forall|n: u64| #[trigger] v.windows.contains_key(n) implies v.windows[n].tabs.contains(
        v.windows[n].active_tab,
    ) by {
        assert(v.window_ok(n));
    }
    assert forall|t: u64| #[trigger] v.tabs.contains_key(t) implies v.tabs[t].root.spec_panes().contains(
        v.tabs[t].active_pane,
    ) by {
        assert(v.tab_ok(t));
    }
}

/// Focusing a tab keeps the hierarchy consistent and makes that tab current.
pub proof fn lemma_focus_tab(v: MuxView, t: u64)
    requires
        v.structure_ok(),
        v.tabs.contains_key(t),
    ensures
        v.focus_tab(t).structure_ok(),
        v.focus_tab(t).wf(),
        v.same_shape(v.focus_tab(t)),
        v.focus_tab(t).current_tab() == TabId(t),
        v.focus_tab(t).current_pane() == v.tabs[t].active_pane,
        v.focus_tab(t).tabs == v.tabs,
        v.focus_tab(t).panes == v.panes,
        v.focus_tab(t).events == v.events,
{
    let r = v.focus_tab(t);
    assert(v.tab_ok(t));
    let n = v.tabs[t].window;
    assert(v.window_ok(n.0));
    let w = v.windows[n.0].workspace;
    lemma_structure_selections(v);
    assert(v.workspace_ok(w.0));
    assert(r.windows.dom() =~= v.windows.dom());
    assert(r.workspaces.dom() =~= v.workspaces.dom());
    assert(r.selections_ok());
    assert(v.same_shape(r));
    lemma_same_shape(v, r);
}

/// Lemmas for the selection-only transitions.
pub proof fn lemma_selection_change(v: MuxView, r: MuxView)
    requires
        v.structure_ok(),
        v.same_shape(r),
        r.selections_ok(),
        r.workspaces.contains_key(r.current_workspace.0),
    ensures
        r.wf(),
{
    lemma_same_shape(v, r);
}

pub proof fn lemma_wf_current(v: MuxView)
    requires
        v.wf(),
    ensures
        v.windows.contains_key(v.current_window().0),
        v.tabs.contains_key(v.current_tab().0),
        v.panes.contains_key(v.current_pane().0),
        v.panes[v.current_pane().0].tab == v.current_tab(),
        v.tabs[v.current_tab().0].window == v.current_window(),
        v.windows[v.current_window().0].workspace == v.current_workspace,
{
    assert(v.workspace_ok(v.current_workspace.0));
    let n = v.current_window();
    let i = choose|i: int|
        0 <= i < v.workspaces[v.current_workspace.0].windows.len()
            && v.workspaces[v.current_workspace.0].windows[i] == n;
    assert(v.windows.contains_key(v.workspaces[v.current_workspace.0].windows[i].0));
    assert(v.window_ok(n.0));
    let t = v.current_tab();
    let j = choose|j: int| 0 <= j < v.windows[n.0].tabs.len() && v.windows[n.0].tabs[j] == t;
    assert(v.tabs.contains_key(v.windows[n.0].tabs[j].0));
    assert(v.tab_ok(t.0));
    let p = v.current_pane();
    let ps = v.tabs[t.0].root.spec_panes();
    let k = choose|k: int| 0 <= k < ps.len() && ps[k] == p;
    assert(v.panes.contains_key(ps[k].0));
}

/// Appending an event keeps the multiplexer well formed.
pub proof fn lemma_push_event(v: MuxView, e: Event)
    requires
        v.wf(),
    ensures
        v.push_event(e).wf(),
{
    lemma_structure_selections(v);
    assert(v.same_shape(v.push_event(e)));
    lemma_selection_change(v, v.push_event(e));
}

pub proof fn lemma_activate_pane(v: MuxView, p: u64)
    requires
        v.wf(),
        v.panes.contains_key(p),
    ensures
        v.after_activate_pane(p).wf(),
        v.after_activate_pane(p).current_pane() == PaneId(p),
        v.after_activate_pane(p).current_tab() == v.panes[p].tab,
{
    assert(v.pane_ok(p));
    let t = v.panes[p].tab.0;
    let a = v.set_active_pane(t, PaneId(p));
    lemma_structure_selections(v);
    assert(a.tabs.dom() =~= v.tabs.dom());
    assert(v.same_shape(a));
    lemma_same_shape(v, a);
    lemma_focus_tab(a, t);
    let b = a.focus_tab(t);
    let c = b.push_event(Event::PaneFocused { pane: PaneId(p) });
    lemma_structure_selections(b);
    assert(b.same_shape(c));
    lemma_selection_change(b, c);
}

pub proof fn lemma_activate_tab(v: MuxView, t: u64)
    requires
        v.wf(),
        v.tabs.contains_key(t),
    ensures
        v.after_activate_tab(t).wf(),
        v.after_activate_tab(t).current_tab() == TabId(t),
        v.after_activate_tab(t).current_pane() == v.tabs[t].active_pane,
{
    lemma_focus_tab(v, t);
    let b = v.focus_tab(t);
    let c = b.push_event(Event::PaneFocused { pane: v.tabs[t].active_pane });
    lemma_structure_selections(b);
    assert(b.same_shape(c));
    lemma_selection_change(b, c);
}

pub proof fn lemma_activate_window(v: MuxView, n: u64)
    requires
        v.wf(),
        v.windows.contains_key(n),
    ensures
        v.after_activate_window(n).wf(),
        v.after_activate_window(n).current_window() == WindowId(n),
        v.after_activate_window(n).current_workspace == v.windows[n].workspace,
{
    assert(v.window_ok(n));
    let w = v.windows[n].workspace;
    let a = v.set_active_window(w.0, WindowId(n)).set_current(w);
    lemma_structure_selections(v);
    assert(a.workspaces.dom() =~= v.workspaces.dom());
    assert(v.same_shape(a));
    lemma_selection_change(v, a);
    lemma_structure_selections(a);
    let b = a.push_event(Event::WorkspaceChanged { workspace: w });
    let c = b.push_event(Event::PaneFocused { pane: a.current_pane() });
    assert(a.same_shape(c));
    lemma_selection_change(a, c);
}

pub proof fn lemma_activate_workspace(v: MuxView, w: u64)
    requires
        v.wf(),
        v.workspaces.contains_key(w),
    ensures
        v.after_activate_workspace(w).wf(),
        v.after_activate_workspace(w).current_workspace == WorkspaceId(w),
{
    let a = v.set_current(WorkspaceId(w));
    lemma_structure_selections(v);
    let b = a.push_event(Event::WorkspaceChanged { workspace: WorkspaceId(w) });
    let c = b.push_event(Event::PaneFocused { pane: a.current_pane() });
    assert(v.same_shape(c));
    lemma_selection_change(v, c);
}

pub proof fn lemma_toggle_zoom(v: MuxView)
    requires
        v.wf(),
    ensures
        v.after_toggle_zoom().wf(),
{
    lemma_wf_current(v);
    let r = v.after_toggle_zoom();
    lemma_structure_selections(v);
    assert(r.tabs.dom() =~= v.tabs.dom());
    assert(v.same_shape(r));
    lemma_selection_change(v, r);
}

pub proof fn lemma_queued_input(v: MuxView, p: u64, bytes: Seq<u8>)
    requires
        v.wf(),
        v.panes.contains_key(p),
    ensures
        v.with_queued_input(p, bytes).wf(),
{
    let r = v.with_queued_input(p, bytes);
    lemma_structure_selections(v);
    assert(r.panes.dom() =~= v.panes.dom());
    assert(v.same_shape(r));
    lemma_selection_change(v, r);
}

/// Every live key is below the next id.
pub proof fn lemma_fresh_ids(v: MuxView)
    requires
        v.structure_ok(),
    ensures
        forall|k: u64| v.workspaces.contains_key(k) ==> k < v.next_id,
        forall|k: u64| v.windows.contains_key(k) ==> k < v.next_id,
        forall|k: u64| v.tabs.contains_key(k) ==> k < v.next_id,
        forall|k: u64| v.panes.contains_key(k) ==> k < v.next_id,
{
}

pub proof fn lemma_new_tab(v: MuxView, n: u64)
    requires
        v.wf(),
        v.windows.contains_key(n),
        v.has_room(2),
    ensures
        v.after_new_tab(n).wf(),
        v.with_new_tab(n).structure_ok(),
{
    lemma_fresh_ids(v);
    let r = v.with_new_tab(n);
    let t = v.next_id;
    let p = (v.next_id + 1) as u64;
    assert(v.window_ok(n));
    let old_tabs = v.windows[n].tabs;
    let new_tabs = old_tabs.push(TabId(t));
    assert(new_tabs[old_tabs.len() as int] == TabId(t));
    assert(!old_tabs.contains(TabId(t))) by {
        if old_tabs.contains(TabId(t)) {
            let i = choose|i: int| 0 <= i < old_tabs.len() && old_tabs[i] == TabId(t);
            assert(v.tabs.contains_key(old_tabs[i].0));
        }
    }
    assert(seq![PaneId(p)].contains(PaneId(p))) by {
        assert(seq![PaneId(p)][0] == PaneId(p));
    }
    assert forall|x: u64| #[trigger] r.workspaces.contains_key(x) implies r.workspace_ok(x) by {
        assert(v.workspace_ok(x));
        let s = v.workspaces[x];
        assert forall|i: int| 0 <= i < s.windows.len() implies r.windows.contains_key(
            #[trigger] s.windows[i].0,
        ) && r.windows[s.windows[i].0].workspace == WorkspaceId(x) by {
            assert(v.windows.contains_key(s.windows[i].0));
        }
    }
    assert forall|x: u64| #[trigger] r.windows.contains_key(x) implies r.window_ok(x) by {
        assert(v.window_ok(x));
        let s = r.windows[x];
        if x == n {
            assert(s.tabs.contains(s.active_tab));
            assert forall|i: int| 0 <= i < s.tabs.len() implies r.tabs.contains_key(
                #[trigger] s.tabs[i].0,
            ) && r.tabs[s.tabs[i].0].window == WindowId(x) by {
                if i < old_tabs.len() {
                    assert(s.tabs[i] == old_tabs[i]);
                    assert(v.tabs.contains_key(old_tabs[i].0));
                }
            }
            assert(s.tabs.no_duplicates()) by {
                assert forall|i: int, j: int|
                    0 <= i < s.tabs.len() && 0 <= j < s.tabs.len() && i != j implies s.tabs[i]
                    != s.tabs[j] by {
                    if i < old_tabs.len() && j == old_tabs.len() {
                        assert(old_tabs.contains(old_tabs[i]));
                    }
                    if j < old_tabs.len() && i == old_tabs.len() {
                        assert(old_tabs.contains(old_tabs[j]));
                    }
                }
            }
        } else {
            assert forall|i: int| 0 <= i < s.tabs.len() implies r.tabs.contains_key(
                #[trigger] s.tabs[i].0,
            ) && r.tabs[s.tabs[i].0].window == WindowId(x) by {
                assert(v.tabs.contains_key(s.tabs[i].0));
            }
        }
    }
    assert forall|x: u64| #[trigger] r.tabs.contains_key(x) implies r.tab_ok(x) by {
        if x == t {
            reveal_with_fuel(PaneNode::spec_panes, 2);
            assert(r.tabs[x].root.spec_panes() =~= seq![PaneId(p)]);
        } else {
            assert(v.tab_ok(x));
            let s = v.tabs[x];
            let ps = s.root.spec_panes();
            if s.window.0 == n {
                let i = choose|i: int| 0 <= i < old_tabs.len() && old_tabs[i] == TabId(x);
                assert(new_tabs[i] == TabId(x));
            }
            assert forall|i: int| 0 <= i < ps.len() implies r.panes.contains_key(
                #[trigger] ps[i].0,
            ) && r.panes[ps[i].0].tab == TabId(x) by {
                assert(v.panes.contains_key(ps[i].0));
            }
        }
    }
    assert forall|x: u64| #[trigger] r.panes.contains_key(x) implies r.pane_ok(x) by {
        if x == p {
            reveal_with_fuel(PaneNode::spec_panes, 2);
            assert(r.tabs[t].root.spec_panes() =~= seq![PaneId(p)]);
        } else {
            assert(v.pane_ok(x));
        }
    }
    assert forall|a: u64, b: u64|
        #[trigger] r.workspaces.contains_key(a) && #[trigger] r.workspaces.contains_key(b) && a
            != b implies r.workspaces[a].name != r.workspaces[b].name by {
        assert(v.workspaces.contains_key(a) && v.workspaces.contains_key(b));
    }
    assert(r.windows.dom() =~= v.windows.dom());
    assert(r.tabs.dom() =~= v.tabs.dom().insert(t));
    assert(r.panes.dom() =~= v.panes.dom().insert(p));
    assert(r.structure_ok());
    lemma_push_event(r, Event::TabCreated { tab: TabId(t) });
    lemma_push_event(
        r.push_event(Event::TabCreated { tab: TabId(t) }),
        Event::PaneCreated { pane: PaneId(p) },
    );
    lemma_push_event(
        r.push_event(Event::TabCreated { tab: TabId(t) }).push_event(
            Event::PaneCreated { pane: PaneId(p) },
        ),
        Event::PaneFocused { pane: PaneId(p) },
    );
}

// ---------------------------------------------------------------------------
// Taking one element out of a sequence without duplicates.
// ---------------------------------------------------------------------------
/// The position of `x` in `s`.
pub open spec fn index_in<A>(s: Seq<A>, x: A) -> int {
    choose|i: int| 0 <= i < s.len() && s[i] == x
}

/// `s` with its occurrence of `x` taken out.
pub open spec fn without<A>(s: Seq<A>, x: A) -> Seq<A> {
    s.remove(index_in(s, x))
}

/// In a sequence without duplicates, the element at `i` is found at `i`.
pub proof fn lemma_index_in<A>(s: Seq<A>, i: int)
    requires
        s.no_duplicates(),
        0 <= i < s.len(),
    ensures
        index_in(s, s[i]) == i,
{
    let x = s[i];
    assert(exists|k: int| 0 <= k < s.len() && s[k] == x) by {
        assert(s[i] == x);
    }
}

/// Taking `x` out of a sequence without duplicates removes exactly `x`.
pub proof fn lemma_without<A>(s: Seq<A>, x: A)
    requires
        s.no_duplicates(),
        s.contains(x),
    ensures
        0 <= index_in(s, x) < s.len(),
        s[index_in(s, x)] == x,
        without(s, x).len() == s.len() - 1,
        forall|y: A| #[trigger] without(s, x).contains(y) <==> (s.contains(y) && y != x),
        without(s, x).no_duplicates(),
{
    let i = index_in(s, x);
    let r = without(s, x);
    assert forall|y: A| #[trigger] r.contains(y) <==> (s.contains(y) && y != x) by {
        if r.contains(y) {
            let k = choose|k: int| 0 <= k < r.len() && r[k] == y;
            if k < i {
                assert(s[k] == y);
            } else {
                assert(s[k + 1] == y);
            }
        }
        if s.contains(y) && y != x {
            let k = choose|k: int| 0 <= k < s.len() && s[k] == y;
            if k < i {
                assert(r[k] == y);
            } else {
                assert(r[k - 1] == y);
            }
        }
    }
    assert forall|a: int, b: int| 0 <= a < r.len() && 0 <= b < r.len() && a != b implies r[a]
        != r[b] by {
        let a2 = if a < i {
            a
        } else {
            a + 1
        };
        let b2 = if b < i {
            b
        } else {
            b + 1
        };
        assert(r[a] == s[a2]);
        assert(r[b] == s[b2]);
    }
}

/// A sound id list without duplicates.
pub proof fn lemma_order_no_duplicates(order: Seq<u64>, keys: Set<u64>, next: u64)
    requires
        order_ok(order, keys, next),
    ensures
        order.no_duplicates(),
{
}

/// Taking a live id out of a sound id list leaves a sound list of the others.
pub proof fn lemma_order_without(order: Seq<u64>, keys: Set<u64>, next: u64, k: u64)
    requires
        order_ok(order, keys, next),
        keys.contains(k),
    ensures
        order_ok(without(order, k), keys.remove(k), next),
{
    assert(order.contains(k));
    lemma_without(order, k);
    let i = index_in(order, k);
    let r = without(order, k);
    assert forall|a: int, b: int| 0 <= a < b < r.len() implies r[a] < r[b] by {
        let a2 = if a < i {
            a
        } else {
            a + 1
        };
        let b2 = if b < i {
            b
        } else {
            b + 1
        };
        assert(r[a] == order[a2]);
        assert(r[b] == order[b2]);
    }
    assert forall|a: int| 0 <= a < r.len() implies keys.remove(k).contains(#[trigger] r[a])
        && r[a] < next by {
        assert(r.contains(r[a]));
        let a2 = if a < i {
            a
        } else {
            a + 1
        };
        assert(r[a] == order[a2]);
    }
    assert forall|x: u64| keys.remove(k).contains(x) implies #[trigger] r.contains(x) by {
        assert(order.contains(x));
    }
}

/// Creating a window in a live workspace keeps the multiplexer well formed.
pub proof fn lemma_new_window(v: MuxView, w: u64)
    requires
        v.wf(),
        v.workspaces.contains_key(w),
        v.has_room(3),
    ensures
        v.with_new_window(w).structure_ok(),
        v.after_create_window(w).wf(),
        v.after_create_window(w).current_pane() == PaneId((v.next_id + 2) as u64),
{
    let r = v.with_new_window(w);
    let n = v.next_id;
    let t = (v.next_id + 1) as u64;
    let p = (v.next_id + 2) as u64;
    assert(v.workspace_ok(w));
    let old_ws = v.workspaces[w].windows;
    let new_ws = old_ws.push(WindowId(n));
    assert(new_ws[old_ws.len() as int] == WindowId(n));
    assert(!old_ws.contains(WindowId(n))) by {
        if old_ws.contains(WindowId(n)) {
            let i = choose|i: int| 0 <= i < old_ws.len() && old_ws[i] == WindowId(n);
            assert(v.windows.contains_key(old_ws[i].0));
        }
    }
    assert(seq![PaneId(p)].contains(PaneId(p))) by {
        assert(seq![PaneId(p)][0] == PaneId(p));
    }
    assert(seq![TabId(t)].contains(TabId(t))) by {
        assert(seq![TabId(t)][0] == TabId(t));
    }
    assert forall|x: u64| #[trigger] r.workspaces.contains_key(x) implies r.workspace_ok(x) by {
        assert(v.workspace_ok(x));
        let s = r.workspaces[x];
        if x == w {
            assert forall|i: int| 0 <= i < s.windows.len() implies r.windows.contains_key(
                #[trigger] s.windows[i].0,
            ) && r.windows[s.windows[i].0].workspace == WorkspaceId(x) by {
                if i < old_ws.len() {
                    assert(s.windows[i] == old_ws[i]);
                    assert(v.windows.contains_key(old_ws[i].0));
                }
            }
            assert(s.windows.no_duplicates()) by {
                assert forall|i: int, j: int|
                    0 <= i < s.windows.len() && 0 <= j < s.windows.len() && i != j implies s.windows[i]
                    != s.windows[j] by {
                    if i < old_ws.len() && j == old_ws.len() {
                        assert(old_ws.contains(old_ws[i]));
                    }
                    if j < old_ws.len() && i == old_ws.len() {
                        assert(old_ws.contains(old_ws[j]));
                    }
                }
            }
        } else {
            assert forall|i: int| 0 <= i < s.windows.len() implies r.windows.contains_key(
                #[trigger] s.windows[i].0,
            ) && r.windows[s.windows[i].0].workspace == WorkspaceId(x) by {
                assert(v.windows.contains_key(s.windows[i].0));
            }
        }
    }
    assert forall|x: u64| #[trigger] r.windows.contains_key(x) implies r.window_ok(x) by {
        if x == n {
            assert(r.windows[x].tabs =~= seq![TabId(t)]);
        } else {
            assert(v.window_ok(x));
            let s = v.windows[x];
            if s.workspace.0 == w {
                let i = choose|i: int| 0 <= i < old_ws.len() && old_ws[i] == WindowId(x);
                assert(new_ws[i] == WindowId(x));
            }
            assert forall|i: int| 0 <= i < s.tabs.len() implies r.tabs.contains_key(
                #[trigger] s.tabs[i].0,
            ) && r.tabs[s.tabs[i].0].window == WindowId(x) by {
                assert(v.tabs.contains_key(s.tabs[i].0));
            }
        }
    }
    assert forall|x: u64| #[trigger] r.tabs.contains_key(x) implies r.tab_ok(x) by {
        if x == t {
            reveal_with_fuel(PaneNode::spec_panes, 2);
            assert(r.tabs[x].root.spec_panes() =~= seq![PaneId(p)]);
        } else {
            assert(v.tab_ok(x));
            let s = v.tabs[x];
            let ps = s.root.spec_panes();
            assert forall|i: int| 0 <= i < ps.len() implies r.panes.contains_key(
                #[trigger] ps[i].0,
            ) && r.panes[ps[i].0].tab == TabId(x) by {
                assert(v.panes.contains_key(ps[i].0));
            }
        }
    }
    assert forall|x: u64| #[trigger] r.panes.contains_key(x) implies r.pane_ok(x) by {
        if x == p {
            reveal_with_fuel(PaneNode::spec_panes, 2);
            assert(r.tabs[t].root.spec_panes() =~= seq![PaneId(p)]);
        } else {
            assert(v.pane_ok(x));
        }
    }
    assert forall|a: u64, b: u64|
        #[trigger] r.workspaces.contains_key(a) && #[trigger] r.workspaces.contains_key(b) && a
            != b implies r.workspaces[a].name != r.workspaces[b].name by {
        assert(v.workspaces.contains_key(a) && v.workspaces.contains_key(b));
    }
    assert(r.structure_ok());
    let c = r.set_current(WorkspaceId(w));
    lemma_structure_selections(r);
    assert(r.same_shape(c));
    lemma_selection_change(r, c);
    let e1 = c.push_event(Event::WindowCreated { window: WindowId(n) });
    let e2 = e1.push_event(Event::TabCreated { tab: TabId(t) });
    let e3 = e2.push_event(Event::PaneCreated { pane: PaneId(p) });
    lemma_push_event(c, Event::WindowCreated { window: WindowId(n) });
    lemma_push_event(e1, Event::TabCreated { tab: TabId(t) });
    lemma_push_event(e2, Event::PaneCreated { pane: PaneId(p) });
    lemma_push_event(e3, Event::PaneFocused { pane: PaneId(p) });
}

/// Splitting a live pane keeps the multiplexer well formed and focuses the
/// new pane, when the tab's new layout lists the panes of the split.
pub proof fn lemma_split(v: MuxView, p: u64, root: PaneNode, new_first: bool)
    requires
        v.wf(),
        v.panes.contains_key(p),
        v.has_room(1),
        root.spec_panes() == panes_after_split(
            v.tabs[v.panes[p].tab.0].root.spec_panes(),
            PaneId(p),
            PaneId(v.next_id),
            new_first,
        ),
    ensures
        v.with_split_tab(v.panes[p].tab.0, root).structure_ok(),
        v.after_split(p, root).wf(),
        v.after_split(p, root).current_pane() == PaneId(v.next_id),
        v.after_split(p, root).current_tab() == v.panes[p].tab,
{
    let t = v.panes[p].tab.0;
    let q = v.next_id;
    assert(v.pane_ok(p));
    assert(v.tab_ok(t));
    let ps = v.tabs[t].root.spec_panes();
    let ps2 = root.spec_panes();
    assert(!ps.contains(PaneId(q))) by {
        if ps.contains(PaneId(q)) {
            let i = choose|i: int| 0 <= i < ps.len() && ps[i] == PaneId(q);
            assert(v.panes.contains_key(ps[i].0));
        }
    }
    lemma_split_panes(ps, PaneId(p), PaneId(q), new_first);
    assert(ps2.contains(PaneId(q)));
    let r = v.with_split_tab(t, root);
    assert forall|x: u64| #[trigger] r.workspaces.contains_key(x) implies r.workspace_ok(x) by {
        assert(v.workspace_ok(x));
        let s = v.workspaces[x];
        assert forall|i: int| 0 <= i < s.windows.len() implies r.windows.contains_key(
            #[trigger] s.windows[i].0,
        ) && r.windows[s.windows[i].0].workspace == WorkspaceId(x) by {
            assert(v.windows.contains_key(s.windows[i].0));
        }
    }
    assert forall|x: u64| #[trigger] r.windows.contains_key(x) implies r.window_ok(x) by {
        assert(v.window_ok(x));
        let s = v.windows[x];
        assert forall|i: int| 0 <= i < s.tabs.len() implies r.tabs.contains_key(
            #[trigger] s.tabs[i].0,
        ) && r.tabs[s.tabs[i].0].window == WindowId(x) by {
            assert(v.tabs.contains_key(s.tabs[i].0));
        }
    }
    assert forall|x: u64| #[trigger] r.tabs.contains_key(x) implies r.tab_ok(x) by {
        if x == t {
            assert forall|i: int| 0 <= i < ps2.len() implies r.panes.contains_key(
                #[trigger] ps2[i].0,
            ) && r.panes[ps2[i].0].tab == TabId(x) by {
                assert(ps2.contains(ps2[i]));
                if ps2[i] != PaneId(q) {
                    let k = choose|k: int| 0 <= k < ps.len() && ps[k] == ps2[i];
                    assert(v.panes.contains_key(ps[k].0));
                }
            }
        } else {
            assert(v.tab_ok(x));
            let s = v.tabs[x];
            let xs = s.root.spec_panes();
            assert forall|i: int| 0 <= i < xs.len() implies r.panes.contains_key(
                #[trigger] xs[i].0,
            ) && r.panes[xs[i].0].tab == TabId(x) by {
                assert(v.panes.contains_key(xs[i].0));
            }
        }
    }
    assert forall|x: u64| #[trigger] r.panes.contains_key(x) implies r.pane_ok(x) by {
        if x != q {
            assert(v.pane_ok(x));
            if v.panes[x].tab.0 == t {
                assert(ps.contains(PaneId(x)));
            }
        }
    }
    assert forall|a: u64, b: u64|
        #[trigger] r.workspaces.contains_key(a) && #[trigger] r.workspaces.contains_key(b) && a
            != b implies r.workspaces[a].name != r.workspaces[b].name by {
        assert(v.workspaces.contains_key(a) && v.workspaces.contains_key(b));
    }
    assert(r.structure_ok());
    lemma_focus_tab(r, t);
    let f = r.focus_tab(t);
    lemma_push_event(f, Event::PaneCreated { pane: PaneId(q) });
    lemma_push_event(
        f.push_event(Event::PaneCreated { pane: PaneId(q) }),
        Event::PaneFocused { pane: PaneId(q) },
    );
}
impl MuxView {
    /// Pane `p` taken out of its tab, whose layout becomes `root`; if `p` was
    /// the tab's focused pane, the first remaining pane takes the focus.
    pub open spec fn with_pane_removed(self, p: u64, root: PaneNode) -> MuxView {
        let t = self.panes[p].tab.0;
        let s = self.tabs[t];
        let active = if s.active_pane == PaneId(p) {
            root.spec_panes()[0]
        } else {
            s.active_pane
        };
        MuxView {
            tabs: self.tabs.insert(t, TabView { root, active_pane: active, ..s }),
            panes: self.panes.remove(p),
            ..self
        }
    }

    /// The effect of closing pane `p` when its tab's remaining layout is `root`.
    pub open spec fn after_close_pane(self, p: u64, root: PaneNode) -> MuxView {
        let t = self.panes[p].tab.0;
        let r = self.with_pane_removed(p, root);
        let r = if self.tabs[t].active_pane == PaneId(p) {
            r.push_event(Event::PaneFocused { pane: r.tabs[t].active_pane })
        } else {
            r
        };
        r.push_event(Event::PaneClosed { pane: PaneId(p) })
    }
}

/// Closing a pane of a split keeps the multiplexer well formed.
pub proof fn lemma_close_pane(v: MuxView, p: u64, root: PaneNode)
    requires
        v.wf(),
        v.panes.contains_key(p),
        !v.tabs[v.panes[p].tab.0].root.is_leaf(),
        root.spec_panes() == panes_without(v.tabs[v.panes[p].tab.0].root.spec_panes(), PaneId(p)),
    ensures
        v.with_pane_removed(p, root).wf(),
        v.after_close_pane(p, root).wf(),
        v.after_close_pane(p, root).tabs[v.panes[p].tab.0].root.spec_panes().contains(
            v.after_close_pane(p, root).tabs[v.panes[p].tab.0].active_pane,
        ),
{
    let t = v.panes[p].tab.0;
    assert(v.pane_ok(p));
    assert(v.tab_ok(t));
    let ps = v.tabs[t].root.spec_panes();
    let ps2 = root.spec_panes();
    v.tabs[t].root.lemma_panes_nonempty();
    lemma_without_panes(ps, PaneId(p));
    assert(ps2.len() > 0) by {
        assert(ps[0] != ps[1]);
        if ps[0] != PaneId(p) {
            assert(ps.contains(ps[0]));
            assert(ps2.contains(ps[0]));
        } else {
            assert(ps.contains(ps[1]));
            assert(ps2.contains(ps[1]));
        }
    }
    assert(ps2.contains(ps2[0]));
    let r = v.with_pane_removed(p, root);
    assert forall|x: u64| #[trigger] r.workspaces.contains_key(x) implies r.workspace_ok(x) by {
        assert(v.workspace_ok(x));
        let s = v.workspaces[x];
        assert forall|i: int| 0 <= i < s.windows.len() implies r.windows.contains_key(
            #[trigger] s.windows[i].0,
        ) && r.windows[s.windows[i].0].workspace == WorkspaceId(x) by {
            assert(v.windows.contains_key(s.windows[i].0));
        }
    }
    assert forall|x: u64| #[trigger] r.windows.contains_key(x) implies r.window_ok(x) by {
        assert(v.window_ok(x));
        let s = v.windows[x];
        assert forall|i: int| 0 <= i < s.tabs.len() implies r.tabs.contains_key(
            #[trigger] s.tabs[i].0,
        ) && r.tabs[s.tabs[i].0].window == WindowId(x) by {
            assert(v.tabs.contains_key(s.tabs[i].0));
        }
    }
    assert forall|x: u64| #[trigger] r.tabs.contains_key(x) implies r.tab_ok(x) by {
        if x == t {
            assert forall|i: int| 0 <= i < ps2.len() implies r.panes.contains_key(
                #[trigger] ps2[i].0,
            ) && r.panes[ps2[i].0].tab == TabId(x) by {
                assert(ps2.contains(ps2[i]));
                let k = choose|k: int| 0 <= k < ps.len() && ps[k] == ps2[i];
                assert(v.panes.contains_key(ps[k].0));
            }
            if v.tabs[t].active_pane != PaneId(p) {
                assert(ps2.contains(v.tabs[t].active_pane));
            }
        } else {
            assert(v.tab_ok(x));
            let s = v.tabs[x];
            let xs = s.root.spec_panes();
            assert forall|i: int| 0 <= i < xs.len() implies r.panes.contains_key(
                #[trigger] xs[i].0,
            ) && r.panes[xs[i].0].tab == TabId(x) by {
                assert(v.panes.contains_key(xs[i].0));
            }
        }
    }
    assert forall|x: u64| #[trigger] r.panes.contains_key(x) implies r.pane_ok(x) by {
        assert(v.pane_ok(x));
        if v.panes[x].tab.0 == t {
            assert(ps2.contains(PaneId(x)));
        }
    }
    assert forall|a: u64, b: u64|
        #[trigger] r.workspaces.contains_key(a) && #[trigger] r.workspaces.contains_key(b) && a
            != b implies r.workspaces[a].name != r.workspaces[b].name by {
        assert(v.workspaces.contains_key(a) && v.workspaces.contains_key(b));
    }
    assert(r.wf());
    if v.tabs[t].active_pane == PaneId(p) {
        let e = Event::PaneFocused { pane: r.tabs[t].active_pane };
        lemma_push_event(r, e);
        lemma_push_event(r.push_event(e), Event::PaneClosed { pane: PaneId(p) });
    } else {
        lemma_push_event(r, Event::PaneClosed { pane: PaneId(p) });
    }
}

/// The raw ids of the panes listed in `panes`.
pub open spec fn pane_keys(panes: Seq<PaneId>) -> Set<u64> {
    Set::new(|k: u64| panes.contains(PaneId(k)))
}

/// One close event for each of `panes`, in order.
pub open spec fn closed_events(panes: Seq<PaneId>) -> Seq<Event> {
    panes.map_values(|p: PaneId| Event::PaneClosed { pane: p })
}

impl MuxView {
    /// The panes of `panes` removed, with a close event for each.
    pub open spec fn with_panes_closed(self, panes: Seq<PaneId>) -> MuxView {
        MuxView {
            panes: self.panes.remove_keys(pane_keys(panes)),
            events: self.events + closed_events(panes),
            ..self
        }
    }

    /// Tab `t` taken out of its window after its panes: if it was the
    /// window's active tab, the window's first remaining tab becomes active.
    pub open spec fn with_tab_removed(self, t: u64) -> MuxView {
        let n = self.tabs[t].window.0;
        let ws = self.windows[n];
        let tabs = without(ws.tabs, TabId(t));
        let active = if ws.active_tab == TabId(t) {
            tabs[0]
        } else {
            ws.active_tab
        };
        let r = self.with_panes_closed(self.tabs[t].root.spec_panes());
        MuxView {
            windows: r.windows.insert(n, WindowView { tabs, active_tab: active, ..ws }),
            tabs: r.tabs.remove(t),
            events: r.events.push(Event::TabClosed { tab: TabId(t) }),
            ..r
        }
    }

    /// The effect of closing tab `t`; the newly current pane is focused when
    /// `t` was the current tab.
    pub open spec fn after_close_tab(self, t: u64) -> MuxView {
        let r = self.with_tab_removed(t);
        if self.current_tab() == TabId(t) {
            r.push_event(Event::PaneFocused { pane: r.current_pane() })
        } else {
            r
        }
    }
}

/// The panes of a tab are exactly the live panes that name it.
pub proof fn lemma_tab_pane_keys(v: MuxView, t: u64)
    requires
        v.structure_ok(),
        v.tabs.contains_key(t),
    ensures
        forall|k: u64| #[trigger]
            pane_keys(v.tabs[t].root.spec_panes()).contains(k) <==> (v.panes.contains_key(k)
                && v.panes[k].tab == TabId(t)),
{
    assert(v.tab_ok(t));
    let ps = v.tabs[t].root.spec_panes();
    assert forall|k: u64| #[trigger]
        pane_keys(ps).contains(k) <==> (v.panes.contains_key(k) && v.panes[k].tab == TabId(t)) by {
        if ps.contains(PaneId(k)) {
            let i = choose|i: int| 0 <= i < ps.len() && ps[i] == PaneId(k);
            assert(v.panes.contains_key(ps[i].0));
        }
        if v.panes.contains_key(k) && v.panes[k].tab == TabId(t) {
            assert(v.pane_ok(k));
        }
    }
}

/// Closing one of several tabs of a window keeps the multiplexer well formed.
pub proof fn lemma_close_tab(v: MuxView, t: u64)
    requires
        v.wf(),
        v.tabs.contains_key(t),
        v.windows[v.tabs[t].window.0].tabs.len() > 1,
    ensures
        v.with_tab_removed(t).wf(),
        v.after_close_tab(t).wf(),
{
    let n = v.tabs[t].window.0;
    assert(v.tab_ok(t));
    assert(v.window_ok(n));
    let ws = v.windows[n];
    let wt = without(ws.tabs, TabId(t));
    lemma_without(ws.tabs, TabId(t));
    assert(wt.contains(wt[0]));
    let ps = v.tabs[t].root.spec_panes();
    lemma_tab_pane_keys(v, t);
    let r = v.with_tab_removed(t);
    assert forall|x: u64| #[trigger] r.workspaces.contains_key(x) implies r.workspace_ok(x) by {
        assert(v.workspace_ok(x));
        let s = v.workspaces[x];
        assert forall|i: int| 0 <= i < s.windows.len() implies r.windows.contains_key(
            #[trigger] s.windows[i].0,
        ) && r.windows[s.windows[i].0].workspace == WorkspaceId(x) by {
            assert(v.windows.contains_key(s.windows[i].0));
        }
    }
    assert forall|x: u64| #[trigger] r.windows.contains_key(x) implies r.window_ok(x) by {
        assert(v.window_ok(x));
        let s = r.windows[x];
        if x == n {
            if ws.active_tab != TabId(t) {
                assert(wt.contains(ws.active_tab));
            }
            assert forall|i: int| 0 <= i < s.tabs.len() implies r.tabs.contains_key(
                #[trigger] s.tabs[i].0,
            ) && r.tabs[s.tabs[i].0].window == WindowId(x) by {
                assert(wt.contains(wt[i]));
                let k = choose|k: int| 0 <= k < ws.tabs.len() && ws.tabs[k] == wt[i];
                assert(v.tabs.contains_key(ws.tabs[k].0));
            }
        } else {
            assert forall|i: int| 0 <= i < s.tabs.len() implies r.tabs.contains_key(
                #[trigger] s.tabs[i].0,
            ) && r.tabs[s.tabs[i].0].window == WindowId(x) by {
                assert(v.tabs.contains_key(s.tabs[i].0));
            }
        }
    }
    assert forall|x: u64| #[trigger] r.tabs.contains_key(x) implies r.tab_ok(x) by {
        assert(v.tab_ok(x));
        let s = v.tabs[x];
        let xs = s.root.spec_panes();
        if s.window.0 == n {
            assert(wt.contains(TabId(x)));
        }
        assert forall|i: int| 0 <= i < xs.len() implies r.panes.contains_key(#[trigger] xs[i].0)
            && r.panes[xs[i].0].tab == TabId(x) by {
            assert(v.panes.contains_key(xs[i].0));
        }
    }
    assert forall|x: u64| #[trigger] r.panes.contains_key(x) implies r.pane_ok(x) by {
        assert(v.pane_ok(x));
    }
    assert forall|a: u64, b: u64|
        #[trigger] r.workspaces.contains_key(a) && #[trigger] r.workspaces.contains_key(b) && a
            != b implies r.workspaces[a].name != r.workspaces[b].name by {
        assert(v.workspaces.contains_key(a) && v.workspaces.contains_key(b));
    }
    assert(r.wf());
    if v.current_tab() == TabId(t) {
        lemma_wf_current(r);
        lemma_push_event(r, Event::PaneFocused { pane: r.current_pane() });
    }
}

/// The raw ids of the tabs listed in `tabs`.
pub open spec fn tab_keys(tabs: Seq<TabId>) -> Set<u64> {
    Set::new(|k: u64| tabs.contains(TabId(k)))
}

impl MuxView {
    /// The events of closing each of `tabs` in turn: a tab's panes, then the tab.
    pub open spec fn tabs_close_events(self, tabs: Seq<TabId>) -> Seq<Event> {
        tabs.flat_map(
            |t: TabId|
                closed_events(self.tabs[t.0].root.spec_panes()).push(Event::TabClosed { tab: t }),
        )
    }

    /// The live panes that belong to one of `tabs`.
    pub open spec fn panes_of_tabs(self, tabs: Seq<TabId>) -> Set<u64> {
        Set::new(|k: u64| self.panes.contains_key(k) && tabs.contains(self.panes[k].tab))
    }

    /// Window `n` taken out of its workspace together with its tabs and panes;
    /// if it was the workspace's active window, the first remaining window
    /// becomes active.
    pub open spec fn with_window_removed(self, n: u64) -> MuxView {
        let s = self.windows[n];
        let w = s.workspace.0;
        let ws = self.workspaces[w];
        let windows = without(ws.windows, WindowId(n));
        let active = if ws.active_window == WindowId(n) {
            windows[0]
        } else {
            ws.active_window
        };
        MuxView {
            workspaces: self.workspaces.insert(
                w,
                WorkspaceView { windows, active_window: active, ..ws },
            ),
            windows: self.windows.remove(n),
            tabs: self.tabs.remove_keys(tab_keys(s.tabs)),
            panes: self.panes.remove_keys(self.panes_of_tabs(s.tabs)),
            events: self.events + self.tabs_close_events(s.tabs).push(
                Event::WindowClosed { window: WindowId(n) },
            ),
            ..self
        }
    }

    /// The effect of closing window `n`; the newly current pane is focused
    /// when `n` was the current window.
    pub open spec fn after_close_window(self, n: u64) -> MuxView {
        let r = self.with_window_removed(n);
        if self.current_window() == WindowId(n) {
            r.push_event(Event::PaneFocused { pane: r.current_pane() })
        } else {
            r
        }
    }
}

/// The tabs of a window are exactly the live tabs that name it.
pub proof fn lemma_window_tab_keys(v: MuxView, n: u64)
    requires
        v.structure_ok(),
        v.windows.contains_key(n),
    ensures
        forall|k: u64| #[trigger]
            tab_keys(v.windows[n].tabs).contains(k) <==> (v.tabs.contains_key(k)
                && v.tabs[k].window == WindowId(n)),
{
    assert(v.window_ok(n));
    let ts = v.windows[n].tabs;
    assert forall|k: u64| #[trigger]
        tab_keys(ts).contains(k) <==> (v.tabs.contains_key(k) && v.tabs[k].window == WindowId(n)) by {
        if ts.contains(TabId(k)) {
            let i = choose|i: int| 0 <= i < ts.len() && ts[i] == TabId(k);
            assert(v.tabs.contains_key(ts[i].0));
        }
        if v.tabs.contains_key(k) && v.tabs[k].window == WindowId(n) {
            assert(v.tab_ok(k));
        }
    }
}

/// Closing one of several windows of a workspace keeps the multiplexer well formed.
pub proof fn lemma_close_window(v: MuxView, n: u64)
    requires
        v.wf(),
        v.windows.contains_key(n),
        v.workspaces[v.windows[n].workspace.0].windows.len() > 1,
    ensures
        v.with_window_removed(n).wf(),
        v.after_close_window(n).wf(),
{
    let s = v.windows[n];
    let w = s.workspace.0;
    assert(v.window_ok(n));
    assert(v.workspace_ok(w));
    let ws = v.workspaces[w];
    let nw = without(ws.windows, WindowId(n));
    lemma_without(ws.windows, WindowId(n));
    assert(nw.contains(nw[0]));
    lemma_window_tab_keys(v, n);
    let r = v.with_window_removed(n);
    assert forall|x: u64| #[trigger] r.workspaces.contains_key(x) implies r.workspace_ok(x) by {
        assert(v.workspace_ok(x));
        let t = r.workspaces[x];
        if x == w {
            if ws.active_window != WindowId(n) {
                assert(nw.contains(ws.active_window));
            }
            assert forall|i: int| 0 <= i < t.windows.len() implies r.windows.contains_key(
                #[trigger] t.windows[i].0,
            ) && r.windows[t.windows[i].0].workspace == WorkspaceId(x) by {
                assert(nw.contains(nw[i]));
                let k = choose|k: int| 0 <= k < ws.windows.len() && ws.windows[k] == nw[i];
                assert(v.windows.contains_key(ws.windows[k].0));
            }
        } else {
            assert forall|i: int| 0 <= i < t.windows.len() implies r.windows.contains_key(
                #[trigger] t.windows[i].0,
            ) && r.windows[t.windows[i].0].workspace == WorkspaceId(x) by {
                assert(v.windows.contains_key(t.windows[i].0));
            }
        }
    }
    assert forall|x: u64| #[trigger] r.windows.contains_key(x) implies r.window_ok(x) by {
        assert(v.window_ok(x));
        let t = v.windows[x];
        if t.workspace.0 == w {
            assert(nw.contains(WindowId(x)));
        }
        assert forall|i: int| 0 <= i < t.tabs.len() implies r.tabs.contains_key(
            #[trigger] t.tabs[i].0,
        ) && r.tabs[t.tabs[i].0].window == WindowId(x) by {
            assert(v.tabs.contains_key(t.tabs[i].0));
        }
    }
    assert forall|x: u64| #[trigger] r.tabs.contains_key(x) implies r.tab_ok(x) by {
        assert(v.tab_ok(x));
        let t = v.tabs[x];
        let xs = t.root.spec_panes();
        assert(!s.tabs.contains(TabId(x)));
        assert forall|i: int| 0 <= i < xs.len() implies r.panes.contains_key(#[trigger] xs[i].0)
            && r.panes[xs[i].0].tab == TabId(x) by {
            assert(v.panes.contains_key(xs[i].0));
        }
    }
    assert forall|x: u64| #[trigger] r.panes.contains_key(x) implies r.pane_ok(x) by {
        assert(v.pane_ok(x));
        let y = v.panes[x].tab;
        assert(TabId(y.0) == y);
        assert(!tab_keys(s.tabs).contains(y.0));
    }
    assert forall|a: u64, b: u64|
        #[trigger] r.workspaces.contains_key(a) && #[trigger] r.workspaces.contains_key(b) && a
            != b implies r.workspaces[a].name != r.workspaces[b].name by {
        assert(v.workspaces.contains_key(a) && v.workspaces.contains_key(b));
    }
    assert(r.wf());
    if v.current_window() == WindowId(n) {
        lemma_wf_current(r);
        lemma_push_event(r, Event::PaneFocused { pane: r.current_pane() });
    }
}

/// The smallest of `keys`.
pub open spec fn min_key(keys: Set<u64>) -> u64 {
    choose|k: u64| keys.contains(k) && forall|j: u64| keys.contains(j) ==> k <= j
}

impl MuxView {
    /// The id of the workspace named `name`.
    pub open spec fn workspace_named(self, name: Seq<char>) -> u64 {
        choose|w: u64| self.workspaces.contains_key(w) && self.workspaces[w].name == name
    }

    /// The workspace that switching to `name` makes current: the one of that
    /// name, or else a new one.
    pub open spec fn switch_target(self, name: Seq<char>) -> WorkspaceId {
        if self.has_workspace_named(name) {
            WorkspaceId(self.workspace_named(name))
        } else {
            WorkspaceId(self.next_id)
        }
    }

    /// The effect of switching to the workspace named `name`, which is
    /// created, with one window, tab and pane, when no workspace has that name.
    pub open spec fn after_switch_workspace(self, name: Seq<char>) -> MuxView {
        let base = if self.has_workspace_named(name) {
            self
        } else {
            self.with_new_workspace(name)
        };
        let w = self.switch_target(name);
        let r = base.set_current(w);
        r.push_event(Event::WorkspaceChanged { workspace: w }).push_event(
            Event::PaneFocused { pane: r.current_pane() },
        )
    }

    /// Pane `p`, the single pane of the single tab of its window, taken out
    /// with that tab and window. The workspace goes too when that was its only
    /// window, and then, if it was current, the workspace with the smallest
    /// id becomes current.
    pub open spec fn with_exited_window_removed(self, p: u64) -> MuxView {
        let t = self.panes[p].tab.0;
        let n = self.tabs[t].window.0;
        let w = self.windows[n].workspace.0;
        let ws = self.workspaces[w];
        let base = self.exited_base(p);
        if ws.windows.len() == 1 {
            let r = MuxView { workspaces: self.workspaces.remove(w), ..base };
            if self.current_workspace == WorkspaceId(w) {
                let m = WorkspaceId(min_key(r.workspaces.dom()));
                r.set_current(m).push_event(Event::WorkspaceChanged { workspace: m })
            } else {
                r
            }
        } else {
            let windows = without(ws.windows, WindowId(n));
            let active = if ws.active_window == WindowId(n) {
                windows[0]
            } else {
                ws.active_window
            };
            MuxView {
                workspaces: self.workspaces.insert(
                    w,
                    WorkspaceView { windows, active_window: active, ..ws },
                ),
                ..base
            }
        }
    }

    /// Pane `p`, its tab and its window taken out, with their close events.
    pub open spec fn exited_base(self, p: u64) -> MuxView {
        let t = self.panes[p].tab.0;
        let n = self.tabs[t].window.0;
        MuxView {
            panes: self.panes.remove(p),
            tabs: self.tabs.remove(t),
            windows: self.windows.remove(n),
            events: self.events.push(Event::PaneClosed { pane: PaneId(p) }).push(
                Event::TabClosed { tab: TabId(t) },
            ).push(Event::WindowClosed { window: WindowId(n) }),
            ..self
        }
    }

    /// The effect of an exited pane that was alone in its window; the newly
    /// current pane is focused when `p` was current.
    pub open spec fn after_exited_window(self, p: u64) -> MuxView {
        let r = self.with_exited_window_removed(p);
        if self.current_pane() == PaneId(p) {
            r.push_event(Event::PaneFocused { pane: r.current_pane() })
        } else {
            r
        }
    }
}

/// A name shared by a workspace identifies it.
pub proof fn lemma_workspace_named(v: MuxView, w: u64)
    requires
        v.structure_ok(),
        v.workspaces.contains_key(w),
    ensures
        v.has_workspace_named(v.workspaces[w].name),
        v.workspace_named(v.workspaces[w].name) == w,
{
    let name = v.workspaces[w].name;
    assert(v.workspaces.contains_key(w) && v.workspaces[w].name == name);
}

/// Switching workspaces keeps the multiplexer well formed.
pub proof fn lemma_switch_workspace(v: MuxView, name: Seq<char>)
    requires
        v.wf(),
        v.has_workspace_named(name) || v.has_room(4),
    ensures
        v.after_switch_workspace(name).wf(),
        v.after_switch_workspace(name).current_workspace == v.switch_target(name),
{
    let base = if v.has_workspace_named(name) {
        v
    } else {
        v.with_new_workspace(name)
    };
    let w = v.switch_target(name);
    if !v.has_workspace_named(name) {
        lemma_new_workspace_structure(v, name);
    }
    assert(base.workspaces.contains_key(w.0));
    let r = base.set_current(w);
    lemma_structure_selections(base);
    assert(base.same_shape(r));
    lemma_selection_change(base, r);
    lemma_push_event(r, Event::WorkspaceChanged { workspace: w });
    lemma_push_event(
        r.push_event(Event::WorkspaceChanged { workspace: w }),
        Event::PaneFocused { pane: r.current_pane() },
    );
}

/// The facts about an exited pane that was alone in its window: its tab
/// holds only it, its window only that tab, and nothing else refers to them.
pub open spec fn alone_in_window(v: MuxView, p: u64) -> bool {
    let t = v.panes[p].tab.0;
    let n = v.tabs[t].window.0;
    let w = v.windows[n].workspace.0;
    &&& v.tabs.contains_key(t)
    &&& v.windows.contains_key(n)
    &&& v.workspaces.contains_key(w)
    &&& v.workspaces[w].windows.contains(WindowId(n))
    &&& forall|k: u64| #[trigger] v.panes.contains_key(k) && k != p ==> v.panes[k].tab.0 != t
    &&& forall|k: u64| #[trigger] v.tabs.contains_key(k) && k != t ==> v.tabs[k].window.0 != n
}

pub proof fn lemma_alone_in_window(v: MuxView, p: u64)
    requires
        v.wf(),
        v.panes.contains_key(p),
        v.tabs[v.panes[p].tab.0].root.is_leaf(),
        v.windows[v.tabs[v.panes[p].tab.0].window.0].tabs.len() == 1,
    ensures
        alone_in_window(v, p),
{
    let t = v.panes[p].tab.0;
    assert(v.pane_ok(p));
    assert(v.tab_ok(t));
    let n = v.tabs[t].window.0;
    assert(v.window_ok(n));
    let w = v.windows[n].workspace.0;
    let ps = v.tabs[t].root.spec_panes();
    assert(ps =~= seq![PaneId(p)]) by {
        let i = choose|i: int| 0 <= i < ps.len() && ps[i] == PaneId(p);
    }
    let wt = v.windows[n].tabs;
    assert(wt =~= seq![TabId(t)]) by {
        let i = choose|i: int| 0 <= i < wt.len() && wt[i] == TabId(t);
    }
    assert forall|k: u64| #[trigger] v.panes.contains_key(k) && k != p implies v.panes[k].tab.0
        != t by {
        assert(v.pane_ok(k));
    }
    assert forall|k: u64| #[trigger] v.tabs.contains_key(k) && k != t implies v.tabs[k].window.0
        != n by {
        assert(v.tab_ok(k));
    }
}

/// The hierarchy stays consistent when the exited pane's workspace goes too.
pub proof fn lemma_exited_drop_workspace(v: MuxView, p: u64)
    requires
        v.structure_ok(),
        v.panes.contains_key(p),
        alone_in_window(v, p),
        v.workspaces[v.windows[v.tabs[v.panes[p].tab.0].window.0].workspace.0].windows.len()
            == 1,
    ensures
        (MuxView {
            workspaces: v.workspaces.remove(
                v.windows[v.tabs[v.panes[p].tab.0].window.0].workspace.0,
            ),
            ..v.exited_base(p)
        }).structure_ok(),
{
    let t = v.panes[p].tab.0;
    let n = v.tabs[t].window.0;
    let w = v.windows[n].workspace.0;
    let ws = v.workspaces[w];
    assert(ws.windows =~= seq![WindowId(n)]) by {
        let i = choose|i: int| 0 <= i < ws.windows.len() && ws.windows[i] == WindowId(n);
    }
    assert forall|k: u64| #[trigger] v.windows.contains_key(k) && k != n implies v.windows[k].workspace.0
        != w by {
        assert(v.window_ok(k));
    }
    let rr = MuxView { workspaces: v.workspaces.remove(w), ..v.exited_base(p) };
    assert forall|x: u64| #[trigger] rr.workspaces.contains_key(x) implies rr.workspace_ok(x) by {
        assert(v.workspace_ok(x));
        let s2 = v.workspaces[x];
        assert forall|i: int| 0 <= i < s2.windows.len() implies rr.windows.contains_key(
            #[trigger] s2.windows[i].0,
        ) && rr.windows[s2.windows[i].0].workspace == WorkspaceId(x) by {
            assert(v.windows.contains_key(s2.windows[i].0));
        }
    }
    assert forall|x: u64| #[trigger] rr.windows.contains_key(x) implies rr.window_ok(x) by {
        assert(v.window_ok(x));
        let s2 = v.windows[x];
        assert forall|i: int| 0 <= i < s2.tabs.len() implies rr.tabs.contains_key(
            #[trigger] s2.tabs[i].0,
        ) && rr.tabs[s2.tabs[i].0].window == WindowId(x) by {
            assert(v.tabs.contains_key(s2.tabs[i].0));
        }
    }
    assert forall|x: u64| #[trigger] rr.tabs.contains_key(x) implies rr.tab_ok(x) by {
        assert(v.tab_ok(x));
        let xs = v.tabs[x].root.spec_panes();
        assert forall|i: int| 0 <= i < xs.len() implies rr.panes.contains_key(#[trigger] xs[i].0)
            && rr.panes[xs[i].0].tab == TabId(x) by {
            assert(v.panes.contains_key(xs[i].0));
        }
    }
    assert forall|x: u64| #[trigger] rr.panes.contains_key(x) implies rr.pane_ok(x) by {
        assert(v.pane_ok(x));
    }
    assert forall|a: u64, b: u64|
        #[trigger] rr.workspaces.contains_key(a) && #[trigger] rr.workspaces.contains_key(b) && a
            != b implies rr.workspaces[a].name != rr.workspaces[b].name by {
        assert(v.workspaces.contains_key(a) && v.workspaces.contains_key(b));
    }
}

/// The hierarchy stays consistent when the exited pane's workspace keeps
/// other windows.
pub proof fn lemma_exited_keep_workspace(v: MuxView, p: u64)
    requires
        v.wf(),
        v.panes.contains_key(p),
        alone_in_window(v, p),
        v.workspaces[v.windows[v.tabs[v.panes[p].tab.0].window.0].workspace.0].windows.len()
            != 1,
    ensures
        v.with_exited_window_removed(p).wf(),
{
    let t = v.panes[p].tab.0;
    let n = v.tabs[t].window.0;
    let w = v.windows[n].workspace.0;
    assert(v.workspace_ok(w));
    let ws = v.workspaces[w];
    let r = v.with_exited_window_removed(p);
    let nw = without(ws.windows, WindowId(n));
    lemma_without(ws.windows, WindowId(n));
    assert(nw.contains(nw[0]));
    if ws.active_window != WindowId(n) {
        assert(nw.contains(ws.active_window));
    }
    assert forall|x: u64| #[trigger] r.workspaces.contains_key(x) implies r.workspace_ok(x) by {
        assert(v.workspace_ok(x));
        let s2 = r.workspaces[x];
        if x == w {
            assert forall|i: int| 0 <= i < s2.windows.len() implies r.windows.contains_key(
                #[trigger] s2.windows[i].0,
            ) && r.windows[s2.windows[i].0].workspace == WorkspaceId(x) by {
                assert(nw.contains(nw[i]));
                let k = choose|k: int| 0 <= k < ws.windows.len() && ws.windows[k] == nw[i];
                assert(v.windows.contains_key(ws.windows[k].0));
            }
        } else {
            assert forall|i: int| 0 <= i < s2.windows.len() implies r.windows.contains_key(
                #[trigger] s2.windows[i].0,
            ) && r.windows[s2.windows[i].0].workspace == WorkspaceId(x) by {
                assert(v.windows.contains_key(s2.windows[i].0));
            }
        }
    }
    assert forall|x: u64| #[trigger] r.windows.contains_key(x) implies r.window_ok(x) by {
        assert(v.window_ok(x));
        let s2 = v.windows[x];
        if s2.workspace.0 == w {
            assert(nw.contains(WindowId(x)));
        }
        assert forall|i: int| 0 <= i < s2.tabs.len() implies r.tabs.contains_key(
            #[trigger] s2.tabs[i].0,
        ) && r.tabs[s2.tabs[i].0].window == WindowId(x) by {
            assert(v.tabs.contains_key(s2.tabs[i].0));
        }
    }
    assert forall|x: u64| #[trigger] r.tabs.contains_key(x) implies r.tab_ok(x) by {
        assert(v.tab_ok(x));
        let xs = v.tabs[x].root.spec_panes();
        assert forall|i: int| 0 <= i < xs.len() implies r.panes.contains_key(#[trigger] xs[i].0)
            && r.panes[xs[i].0].tab == TabId(x) by {
            assert(v.panes.contains_key(xs[i].0));
        }
    }
    assert forall|x: u64| #[trigger] r.panes.contains_key(x) implies r.pane_ok(x) by {
        assert(v.pane_ok(x));
    }
    assert forall|a: u64, b: u64|
        #[trigger] r.workspaces.contains_key(a) && #[trigger] r.workspaces.contains_key(b) && a
            != b implies r.workspaces[a].name != r.workspaces[b].name by {
        assert(v.workspaces.contains_key(a) && v.workspaces.contains_key(b));
    }
}

/// Removing an exited pane that was alone in its window keeps the
/// multiplexer well formed. `m` is the smallest id among the other
/// workspaces, which becomes current when the pane's workspace was current
/// and goes away with it.
#[verifier::rlimit(40)]
pub proof fn lemma_exited_window(v: MuxView, p: u64, m: u64)
    requires
        v.wf(),
        v.panes.contains_key(p),
        v.tabs[v.panes[p].tab.0].root.is_leaf(),
        v.windows[v.tabs[v.panes[p].tab.0].window.0].tabs.len() == 1,
        ({
            let w = v.windows[v.tabs[v.panes[p].tab.0].window.0].workspace.0;
            v.workspaces[w].windows.len() == 1 && v.current_workspace == WorkspaceId(w) ==> (
            v.workspaces.contains_key(m) && m != w && forall|j: u64|
                #[trigger] v.workspaces.contains_key(j) && j != w ==> m <= j)
        }),
    ensures
        v.with_exited_window_removed(p).wf(),
        v.after_exited_window(p).wf(),
{
    lemma_alone_in_window(v, p);
    let t = v.panes[p].tab.0;
    let n = v.tabs[t].window.0;
    let w = v.windows[n].workspace.0;
    let ws = v.workspaces[w];
    let r = v.with_exited_window_removed(p);
    if ws.windows.len() == 1 {
        lemma_exited_drop_workspace(v, p);
        let rr = MuxView { workspaces: v.workspaces.remove(w), ..v.exited_base(p) };
        if v.current_workspace == WorkspaceId(w) {
            assert(rr.workspaces.contains_key(m));
            assert(min_key(rr.workspaces.dom()) == m) by {
                assert(rr.workspaces.dom().contains(m) && forall|j: u64|
                    rr.workspaces.dom().contains(j) ==> m <= j);
                let k = min_key(rr.workspaces.dom());
                assert(k <= m && m <= k);
            }
            let c = rr.set_current(WorkspaceId(m));
            lemma_structure_selections(rr);
            assert(rr.same_shape(c));
            lemma_selection_change(rr, c);
            lemma_push_event(c, Event::WorkspaceChanged { workspace: WorkspaceId(m) });
            assert(r == c.push_event(Event::WorkspaceChanged { workspace: WorkspaceId(m) }));
        } else {
            assert(rr.wf());
            assert(r == rr);
        }
    } else {
        lemma_exited_keep_workspace(v, p);
    }
    if v.current_pane() == PaneId(p) {
        lemma_wf_current(r);
        lemma_push_event(r, Event::PaneFocused { pane: r.current_pane() });
    }
}
impl MuxView {
    /// Whether tab `k` lies in workspace `w`.
    pub open spec fn tab_in_workspace(self, w: WorkspaceId, k: u64) -> bool {
        self.windows[self.tabs[k].window.0].workspace == w
    }

    /// Whether pane `k` lies in workspace `w`.
    pub open spec fn pane_in_workspace(self, w: WorkspaceId, k: u64) -> bool {
        self.tab_in_workspace(w, self.panes[k].tab.0)
    }

    /// The live tabs of workspace `w`.
    pub open spec fn tabs_in(self, w: WorkspaceId) -> Set<u64> {
        self.tabs.dom().filter(|k: u64| self.tab_in_workspace(w, k))
    }

    /// The live panes of workspace `w`.
    pub open spec fn panes_in(self, w: WorkspaceId) -> Set<u64> {
        self.panes.dom().filter(|k: u64| self.pane_in_workspace(w, k))
    }

    /// The one-line description of the current workspace: its name and how
    /// many windows, tabs and panes it holds.
    pub open spec fn summary_text(self) -> Seq<char> {
        let w = self.current_workspace;
        let ws = self.workspaces[w.0];
        "workspace="@ + ws.name + " windows="@ + decimal(ws.windows.len()) + " tabs="@ + decimal(
            self.tabs_in(w).len(),
        ) + " panes="@ + decimal(self.panes_in(w).len())
    }
}

/// Counting the ids of a list one by one: the set of those seen so far that
/// satisfy `pred` grows by one exactly when the next id does.
pub proof fn lemma_count_step(o: Seq<u64>, i: int, pred: spec_fn(u64) -> bool)
    requires
        o.no_duplicates(),
        0 <= i < o.len(),
    ensures
        o.take(i).to_set().filter(pred).finite(),
        o.take(i + 1).to_set().filter(pred).len() == o.take(i).to_set().filter(pred).len() + (
        if pred(o[i]) {
            1int
        } else {
            0int
        }),
        o.take(i).to_set().filter(pred).len() <= i,
{
    broadcast use vstd::set::group_set_axioms;
    broadcast use vstd::seq_lib::seq_to_set_is_finite;

    let a = o.take(i);
    let b = o.take(i + 1);
    assert(b =~= a.push(o[i]));
    assert(b.to_set() =~= a.to_set().insert(o[i])) by {
        assert forall|x: u64| b.to_set().contains(x) <==> a.to_set().insert(o[i]).contains(x) by {
            if b.contains(x) {
                let k = choose|k: int| 0 <= k < b.len() && b[k] == x;
                if k < i {
                    assert(a[k] == x);
                }
            }
            if a.contains(x) {
                let k = choose|k: int| 0 <= k < a.len() && a[k] == x;
                assert(b[k] == x);
            }
            if x == o[i] {
                assert(b[i] == x);
            }
        }
    }
    assert(!a.to_set().contains(o[i])) by {
        if a.contains(o[i]) {
            let k = choose|k: int| 0 <= k < a.len() && a[k] == o[i];
            assert(o[k] == o[i]);
        }
    }
    let sa = a.to_set().filter(pred);
    assert(sa.finite());
    if pred(o[i]) {
        assert(b.to_set().filter(pred) =~= sa.insert(o[i]));
    } else {
        assert(b.to_set().filter(pred) =~= sa);
    }
    a.lemma_cardinality_of_set();
    vstd::set_lib::lemma_len_subset(sa, a.to_set());
}

/// A sound id list holds exactly the live ids.
pub proof fn lemma_order_to_set(o: Seq<u64>, keys: Set<u64>, next: u64)
    requires
        order_ok(o, keys, next),
    ensures
        o.take(o.len() as int).to_set() == keys,
{
    assert(o.take(o.len() as int) =~= o);
    assert forall|x: u64| o.to_set().contains(x) <==> keys.contains(x) by {
        if o.contains(x) {
            let k = choose|k: int| 0 <= k < o.len() && o[k] == x;
        }
    }
    assert(o.to_set() =~= keys);
}

impl MuxView {
    /// Whether `h` names a live object of the hierarchy.
    pub open spec fn has_handle(self, h: NativeHandle) -> bool {
        match h.spec_kind() {
            HandleKind::Workspace => self.workspaces.contains_key(h.spec_id()),
            HandleKind::Window => self.windows.contains_key(h.spec_id()),
            HandleKind::Tab => self.tabs.contains_key(h.spec_id()),
            HandleKind::Pane => self.panes.contains_key(h.spec_id()),
        }
    }
}


/// When a pane is the only one, its tab holds nothing else and its window
/// no other tab.
pub proof fn lemma_only_pane(v: MuxView, p: u64)
    requires
        v.structure_ok(),
        v.panes.contains_key(p),
        v.panes.dom() == set![p],
    ensures
        ({
            let t = v.panes[p].tab.0;
            v.tabs[t].root.is_leaf() && v.windows[v.tabs[t].window.0].tabs.len() == 1
        }),
{
    let t = v.panes[p].tab.0;
    assert(v.pane_ok(p));
    assert(v.tab_ok(t));
    let ps = v.tabs[t].root.spec_panes();
    v.tabs[t].root.lemma_panes_nonempty();
    if !v.tabs[t].root.is_leaf() {
        assert(v.panes.contains_key(ps[0].0));
        assert(v.panes.contains_key(ps[1].0));
        assert(v.panes.dom().contains(ps[0].0));
        assert(v.panes.dom().contains(ps[1].0));
        assert(ps[0] == ps[1]);
    }
    let n = v.tabs[t].window.0;
    assert(v.window_ok(n));
    let ts = v.windows[n].tabs;
    if ts.len() != 1 {
        let k = choose|k: int| 0 <= k < ts.len() && ts[k] == TabId(t);
        let j: int = if k == 0 {
            1
        } else {
            0
        };
        let t2 = ts[j].0;
        assert(ts[j] != ts[k]);
        assert(v.tabs.contains_key(t2));
        assert(v.tab_ok(t2));
        let ps2 = v.tabs[t2].root.spec_panes();
        v.tabs[t2].root.lemma_panes_nonempty();
        assert(v.panes.contains_key(ps2[0].0));
        assert(v.panes.dom().contains(ps2[0].0));
        assert(ps2[0].0 == p);
        assert(v.panes[p].tab == TabId(t2));
    }
}

} // verus!
