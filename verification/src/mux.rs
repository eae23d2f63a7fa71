//! The in-memory multiplexer: workspaces hold windows, windows hold tabs,
//! and each tab lays out its panes in a split tree. All control planes change
//! the hierarchy through `Mux::dispatch`.
use std::collections::HashMap;

use vstd::prelude::*;
use vstd::string::StringSliceAdditionalSpecFns;
use vstd::utf8::encode_utf8;

use crate::api::{
    Command, CommandResult, Event, HandleKind, NativeHandle, PaneId, SplitDirection, TabId,
    WindowId, WorkspaceId,
};
use crate::mux_model::{
    initial_view, lemma_activate_pane, lemma_activate_tab, lemma_activate_window,
    lemma_activate_workspace, lemma_focus_tab, lemma_alone_in_window, lemma_count_step, lemma_order_to_set, lemma_exited_window, lemma_switch_workspace, lemma_workspace_named, lemma_close_pane, lemma_close_tab, lemma_close_window, lemma_window_tab_keys, tab_keys, lemma_index_in, lemma_tab_pane_keys, pane_keys, closed_events, lemma_new_tab, lemma_new_window, lemma_order_no_duplicates, lemma_order_without, without, lemma_new_workspace_structure, lemma_order_raise, lemma_split,
    lemma_only_pane, lemma_order_push, lemma_push_event, lemma_queued_input, lemma_same_shape,
    lemma_selection_change, lemma_structure_selections, lemma_toggle_zoom, lemma_wf_current,
    order_ok, MuxView, PaneView, TabView, WindowView, WorkspaceView,
};
use crate::text::{decimal, push_decimal, push_str};
use crate::tree::{new_pane_goes_first, panes_after_split, panes_without, PaneNode};

verus! {

broadcast use vstd::std_specs::hash::group_hash_axioms;

/// Why a multiplexer command was refused.
#[derive(Clone, Copy, Debug, PartialEq, Eq, Structural)]
pub enum MuxError {
    UnknownWorkspace(WorkspaceId),
    UnknownWindow(WindowId),
    UnknownPane(PaneId),
    UnknownTab(TabId),
    CannotCloseLastWindow(WindowId),
    CannotCloseLastPane(PaneId),
    CannotCloseLastTab(TabId),
}


impl MuxError {
    /// The description of the error, naming the object by its id.
    pub open spec fn spec_message(self) -> Seq<char> {
        match self {
            MuxError::UnknownWorkspace(id) => "unknown workspace "@ + decimal(id.0 as nat),
            MuxError::UnknownWindow(id) => "unknown window "@ + decimal(id.0 as nat),
            MuxError::UnknownPane(id) => "unknown pane "@ + decimal(id.0 as nat),
            MuxError::UnknownTab(id) => "unknown tab "@ + decimal(id.0 as nat),
            MuxError::CannotCloseLastWindow(id) => "cannot close the last window "@ + decimal(
                id.0 as nat,
            ),
            MuxError::CannotCloseLastPane(id) => "cannot close the last pane "@ + decimal(
                id.0 as nat,
            ),
            MuxError::CannotCloseLastTab(id) => "cannot close the last tab "@ + decimal(
                id.0 as nat,
            ),
        }
    }

    /// Returns the description of the error.
    pub fn message(&self) -> (s: String)
        ensures
            s@ == self.spec_message(),
    {
        let mut s = String::new();
        let id = match self {
            MuxError::UnknownWorkspace(id) => {
                push_str(&mut s, "unknown workspace ");
                id.0
            },
            MuxError::UnknownWindow(id) => {
                push_str(&mut s, "unknown window ");
                id.0
            },
            MuxError::UnknownPane(id) => {
                push_str(&mut s, "unknown pane ");
                id.0
            },
            MuxError::UnknownTab(id) => {
                push_str(&mut s, "unknown tab ");
                id.0
            },
            MuxError::CannotCloseLastWindow(id) => {
                push_str(&mut s, "cannot close the last window ");
                id.0
            },
            MuxError::CannotCloseLastPane(id) => {
                push_str(&mut s, "cannot close the last pane ");
                id.0
            },
            MuxError::CannotCloseLastTab(id) => {
                push_str(&mut s, "cannot close the last tab ");
                id.0
            },
        };
        push_decimal(&mut s, id as u128);
        proof {
            assert(s@ =~= self.spec_message());
        }
        s
    }
}

impl MuxView {
    /// What dispatching `command` on this multiplexer answers (`r`) and
    /// leaves behind (`f`).
    pub open spec fn dispatch_result(
        self,
        command: Command,
        r: Result<CommandResult, MuxError>,
        f: MuxView,
    ) -> bool {
        let v = self;
        match command {
            Command::NewTab => r == Ok::<CommandResult, MuxError>(
                CommandResult::Tab(TabId(v.next_id)),
            ) && f == v.after_new_tab(v.current_window().0),
            Command::NewTabIn(n) => if v.windows.contains_key(n.0) {
                r == Ok::<CommandResult, MuxError>(CommandResult::Tab(TabId(v.next_id)))
                    && f == v.after_new_tab(n.0)
            } else {
                r == Err::<CommandResult, MuxError>(MuxError::UnknownWindow(n)) && f == v
            },
            Command::CreateWindow(w) => if v.workspaces.contains_key(w.0) {
                r == Ok::<CommandResult, MuxError>(
                    CommandResult::Window(WindowId(v.next_id)),
                ) && f == v.after_create_window(w.0)
            } else {
                r == Err::<CommandResult, MuxError>(MuxError::UnknownWorkspace(w)) && f
                    == v
            },
            Command::ActivateWindow(n) => if v.windows.contains_key(n.0) {
                r == Ok::<CommandResult, MuxError>(CommandResult::Window(n)) && f
                    == v.after_activate_window(n.0)
            } else {
                r == Err::<CommandResult, MuxError>(MuxError::UnknownWindow(n)) && f == v
            },
            Command::CloseWindow(n) => if !v.windows.contains_key(n.0) {
                r == Err::<CommandResult, MuxError>(MuxError::UnknownWindow(n)) && f == v
            } else if v.workspaces[v.windows[n.0].workspace.0].windows.len() == 1 {
                r == Err::<CommandResult, MuxError>(MuxError::CannotCloseLastWindow(n))
                    && f == v
            } else {
                r == Ok::<CommandResult, MuxError>(CommandResult::Empty) && f
                    == v.after_close_window(n.0)
            },
            Command::ActivateTab(t) => if v.tabs.contains_key(t.0) {
                r == Ok::<CommandResult, MuxError>(CommandResult::Tab(t)) && f
                    == v.after_activate_tab(t.0)
            } else {
                r == Err::<CommandResult, MuxError>(MuxError::UnknownTab(t)) && f == v
            },
            Command::CloseTab(t) => if !v.tabs.contains_key(t.0) {
                r == Err::<CommandResult, MuxError>(MuxError::UnknownTab(t)) && f == v
            } else if v.windows[v.tabs[t.0].window.0].tabs.len() == 1 {
                r == Err::<CommandResult, MuxError>(MuxError::CannotCloseLastTab(t)) && f
                    == v
            } else {
                r == Ok::<CommandResult, MuxError>(CommandResult::Empty) && f
                    == v.after_close_tab(t.0)
            },
            Command::Split { pane, direction } => if v.panes.contains_key(pane.0) {
                let t = v.panes[pane.0].tab.0;
                &&& r == Ok::<CommandResult, MuxError>(
                    CommandResult::Pane(PaneId(v.next_id)),
                )
                &&& f.tabs[t].root.spec_panes() == panes_after_split(
                    v.tabs[t].root.spec_panes(),
                    pane,
                    PaneId(v.next_id),
                    new_pane_goes_first(direction),
                )
                &&& f == v.after_split(pane.0, f.tabs[t].root)
            } else {
                r == Err::<CommandResult, MuxError>(MuxError::UnknownPane(pane)) && f == v
            },
            Command::ClosePane(pane) => if !v.panes.contains_key(pane.0) {
                r == Err::<CommandResult, MuxError>(MuxError::UnknownPane(pane)) && f == v
            } else if v.tabs[v.panes[pane.0].tab.0].root.is_leaf() {
                r == Err::<CommandResult, MuxError>(MuxError::CannotCloseLastPane(pane))
                    && f == v
            } else {
                let t = v.panes[pane.0].tab.0;
                &&& r == Ok::<CommandResult, MuxError>(CommandResult::Empty)
                &&& f.tabs[t].root.spec_panes() == panes_without(
                    v.tabs[t].root.spec_panes(),
                    pane,
                )
                &&& f == v.after_close_pane(pane.0, f.tabs[t].root)
            },
            Command::ActivatePane(pane) => if v.panes.contains_key(pane.0) {
                r == Ok::<CommandResult, MuxError>(CommandResult::Pane(pane)) && f
                    == v.after_activate_pane(pane.0)
            } else {
                r == Err::<CommandResult, MuxError>(MuxError::UnknownPane(pane)) && f == v
            },
            Command::SendText { pane, text } => if v.panes.contains_key(pane.0) {
                r == Ok::<CommandResult, MuxError>(CommandResult::Empty) && f
                    == v.with_queued_input(pane.0, encode_utf8(text@)).push_event(
                    Event::TextQueued { pane, bytes: encode_utf8(text@).len() as usize },
                )
            } else {
                r == Err::<CommandResult, MuxError>(MuxError::UnknownPane(pane)) && f == v
            },
            Command::ActivateWorkspace(w) => if v.workspaces.contains_key(w.0) {
                r == Ok::<CommandResult, MuxError>(CommandResult::Workspace(w)) && f
                    == v.after_activate_workspace(w.0)
            } else {
                r == Err::<CommandResult, MuxError>(MuxError::UnknownWorkspace(w)) && f
                    == v
            },
            Command::SwitchWorkspace(name) => r == Ok::<CommandResult, MuxError>(
                CommandResult::Workspace(v.switch_target(name@)),
            ) && f == v.after_switch_workspace(name@),
            Command::ToggleZoom => r == Ok::<CommandResult, MuxError>(CommandResult::Empty)
                && f == v.after_toggle_zoom(),
        }
    }
}

// ---------------------------------------------------------------------------
// The executable multiplexer.
// ---------------------------------------------------------------------------
pub proof fn lemma_map_values_insert<K, V, W>(m: Map<K, V>, k: K, v: V, f: spec_fn(V) -> W)
    ensures
        m.insert(k, v).map_values(f) == m.map_values(f).insert(k, f(v)),
{
    assert(m.insert(k, v).map_values(f) =~= m.map_values(f).insert(k, f(v)));
}

pub proof fn lemma_map_values_remove<K, V, W>(m: Map<K, V>, k: K, f: spec_fn(V) -> W)
    ensures
        m.remove(k).map_values(f) == m.map_values(f).remove(k),
{
    assert(m.remove(k).map_values(f) =~= m.map_values(f).remove(k));
}

struct PaneState {
    tab: TabId,
    pending_input: Vec<u8>,
}

impl PaneState {
    spec fn view(&self) -> PaneView {
        PaneView { tab: self.tab, pending_input: self.pending_input@ }
    }
}

struct TabState {
    window: WindowId,
    root: PaneNode,
    active_pane: PaneId,
    zoomed: bool,
}

impl TabState {
    spec fn view(&self) -> TabView {
        TabView {
            window: self.window,
            root: self.root,
            active_pane: self.active_pane,
            zoomed: self.zoomed,
        }
    }
}

struct WindowState {
    workspace: WorkspaceId,
    tabs: Vec<TabId>,
    active_tab: TabId,
}

impl WindowState {
    spec fn view(&self) -> WindowView {
        WindowView { workspace: self.workspace, tabs: self.tabs@, active_tab: self.active_tab }
    }
}

struct WorkspaceState {
    name: String,
    windows: Vec<WindowId>,
    active_window: WindowId,
}

impl WorkspaceState {
    spec fn view(&self) -> WorkspaceView {
        WorkspaceView {
            name: self.name@,
            windows: self.windows@,
            active_window: self.active_window,
        }
    }
}

spec fn pane_view_of() -> spec_fn(PaneState) -> PaneView {
    |s: PaneState| s.view()
}

spec fn tab_view_of() -> spec_fn(TabState) -> TabView {
    |s: TabState| s.view()
}

spec fn window_view_of() -> spec_fn(WindowState) -> WindowView {
    |s: WindowState| s.view()
}

spec fn workspace_view_of() -> spec_fn(WorkspaceState) -> WorkspaceView {
    |s: WorkspaceState| s.view()
}

/// In-memory multiplexer state.
pub struct Mux {
    next_id: u64,
    workspaces: HashMap<u64, WorkspaceState>,
    windows: HashMap<u64, WindowState>,
    tabs: HashMap<u64, TabState>,
    panes: HashMap<u64, PaneState>,
    workspace_order: Vec<u64>,
    window_order: Vec<u64>,
    tab_order: Vec<u64>,
    pane_order: Vec<u64>,
    current_workspace: WorkspaceId,
    events: Vec<Event>,
}

impl View for Mux {
    type V = MuxView;

    closed spec fn view(&self) -> MuxView {
        MuxView {
            next_id: self.next_id,
            workspaces: self.workspaces@.map_values(workspace_view_of()),
            windows: self.windows@.map_values(window_view_of()),
            tabs: self.tabs@.map_values(tab_view_of()),
            panes: self.panes@.map_values(pane_view_of()),
            current_workspace: self.current_workspace,
            events: self.events@,
        }
    }
}

impl Mux {
    /// The id lists hold exactly the live ids of each kind, in ascending order.
    closed spec fn orders_ok(&self) -> bool {
        &&& order_ok(self.workspace_order@, self@.workspaces.dom(), self.next_id)
        &&& order_ok(self.window_order@, self@.windows.dom(), self.next_id)
        &&& order_ok(self.tab_order@, self@.tabs.dom(), self.next_id)
        &&& order_ok(self.pane_order@, self@.panes.dom(), self.next_id)
    }

    /// The multiplexer's invariant: a consistent hierarchy with a live current
    /// workspace, and id lists that agree with it.
    pub closed spec fn wf(&self) -> bool {
        self@.wf() && self.orders_ok()
    }

    closed spec fn same_orders(&self, other: &Mux) -> bool {
        &&& self.workspace_order@ == other.workspace_order@
        &&& self.window_order@ == other.window_order@
        &&& self.tab_order@ == other.tab_order@
        &&& self.pane_order@ == other.pane_order@
    }

    /// Operations that keep every id alive keep the id lists sound.
    proof fn keep_orders(&self, before: &Mux)
        requires
            before.orders_ok(),
            self.same_orders(before),
            self.next_id == before.next_id,
        ensures
            self@.workspaces.dom() =~= before@.workspaces.dom() && self@.windows.dom()
                =~= before@.windows.dom() && self@.tabs.dom() =~= before@.tabs.dom()
                && self@.panes.dom() =~= before@.panes.dom() ==> self.orders_ok(),
    {
    }

    fn allocate_id(&mut self) -> (id: u64)
        requires
            old(self).next_id < u64::MAX,
        ensures
            id == old(self).next_id,
            final(self).next_id == old(self).next_id + 1,
            final(self).workspaces == old(self).workspaces,
            final(self).windows == old(self).windows,
            final(self).tabs == old(self).tabs,
            final(self).panes == old(self).panes,
            final(self).current_workspace == old(self).current_workspace,
            final(self).events == old(self).events,
            final(self).same_orders(old(self)),
    {
        let id = self.next_id;
        self.next_id = self.next_id + 1;
        id
    }

    fn create_workspace(&mut self, name: String) -> (workspace: WorkspaceId)
        requires
            old(self)@.structure_ok(),
            old(self).orders_ok(),
            old(self)@.has_room(4),
            !old(self)@.has_workspace_named(name@),
        ensures
            final(self)@ == old(self)@.with_new_workspace(name@),
            workspace.0 == old(self)@.next_id,
            final(self)@.structure_ok(),
            final(self).orders_ok(),
    {
        proof {
            lemma_new_workspace_structure(self@, name@);
        }
        let ghost before = self@;
        let ghost old_ws = self.workspaces@;
        let ghost old_wn = self.windows@;
        let ghost old_tb = self.tabs@;
        let ghost old_pn = self.panes@;
        let ghost orders = (
            self.workspace_order@,
            self.window_order@,
            self.tab_order@,
            self.pane_order@,
        );
        let w = self.allocate_id();
        let n = self.allocate_id();
        let t = self.allocate_id();
        let p = self.allocate_id();
        let pane_state = PaneState { tab: TabId(t), pending_input: Vec::new() };
        let tab_state = TabState {
            window: WindowId(n),
            root: PaneNode::Leaf(PaneId(p)),
            active_pane: PaneId(p),
            zoomed: false,
        };
        let mut window_tabs = Vec::new();
        window_tabs.push(TabId(t));
        let window_state = WindowState {
            workspace: WorkspaceId(w),
            tabs: window_tabs,
            active_tab: TabId(t),
        };
        let mut workspace_windows = Vec::new();
        workspace_windows.push(WindowId(n));
        let workspace_state = WorkspaceState {
            name,
            windows: workspace_windows,
            active_window: WindowId(n),
        };
        proof {
            lemma_map_values_insert(old_pn, p, pane_state, pane_view_of());
            lemma_map_values_insert(old_tb, t, tab_state, tab_view_of());
            lemma_map_values_insert(old_wn, n, window_state, window_view_of());
            lemma_map_values_insert(old_ws, w, workspace_state, workspace_view_of());
            assert(window_state.view().tabs =~= seq![TabId(t)]);
            assert(workspace_state.view().windows =~= seq![WindowId(n)]);
        }
        self.panes.insert(p, pane_state);
        self.tabs.insert(t, tab_state);
        self.windows.insert(n, window_state);
        self.workspaces.insert(w, workspace_state);
        self.workspace_order.push(w);
        self.window_order.push(n);
        self.tab_order.push(t);
        self.pane_order.push(p);
        proof {
            let r = before.with_new_workspace(name@);
            assert(self@.panes == r.panes);
            assert(self@.tabs == r.tabs);
            assert(self@.windows == r.windows);
            assert(self@.workspaces == r.workspaces);
            assert(self@ == r);
            lemma_order_push(orders.0, before.workspaces.dom(), before.next_id, w, r.next_id);
            lemma_order_push(orders.1, before.windows.dom(), before.next_id, n, r.next_id);
            lemma_order_push(orders.2, before.tabs.dom(), before.next_id, t, r.next_id);
            lemma_order_push(orders.3, before.panes.dom(), before.next_id, p, r.next_id);
            assert(r.workspaces.dom() == before.workspaces.dom().insert(w));
            assert(r.windows.dom() == before.windows.dom().insert(n));
            assert(r.tabs.dom() == before.tabs.dom().insert(t));
            assert(r.panes.dom() == before.panes.dom().insert(p));
        }
        WorkspaceId(w)
    }

    /// A multiplexer with one workspace, "Workspace 1", holding one window,
    /// one tab and one pane. No events are pending.
    pub fn new() -> (mux: Mux)
        ensures
            mux@ == initial_view(),
            mux.wf(),
    {
        let mut mux = Mux {
            next_id: 1,
            workspaces: HashMap::new(),
            windows: HashMap::new(),
            tabs: HashMap::new(),
            panes: HashMap::new(),
            workspace_order: Vec::new(),
            window_order: Vec::new(),
            tab_order: Vec::new(),
            pane_order: Vec::new(),
            current_workspace: WorkspaceId(1),
            events: Vec::new(),
        };
        proof {
            let v = mux@;
            assert(v.workspaces =~= Map::empty());
            assert(v.windows =~= Map::empty());
            assert(v.tabs =~= Map::empty());
            assert(v.panes =~= Map::empty());
            assert(v.events =~= seq![]);
            assert(v.structure_ok());
            assert(!v.has_workspace_named("Workspace 1"@));
        }
        let name = "Workspace 1".to_owned();
        let workspace = mux.create_workspace(name);
        mux.current_workspace = workspace;
        proof {
            assert(mux@ =~= initial_view());
        }
        mux
    }
}

impl Mux {
    fn set_window_active_tab(&mut self, n: u64, tab: TabId)
        requires
            old(self)@.windows.contains_key(n),
        ensures
            final(self)@ == old(self)@.set_active_tab(n, tab),
            final(self).same_orders(old(self)),
    {
        let ghost before = self@;
        let mut state = self.windows.remove(&n).unwrap();
        state.active_tab = tab;
        self.windows.insert(n, state);
        proof {
            assert(self@.windows =~= before.set_active_tab(n, tab).windows);
            assert(self@ =~= before.set_active_tab(n, tab));
        }
    }

    fn set_workspace_active_window(&mut self, w: u64, window: WindowId)
        requires
            old(self)@.workspaces.contains_key(w),
        ensures
            final(self)@ == old(self)@.set_active_window(w, window),
            final(self).same_orders(old(self)),
    {
        let ghost before = self@;
        let mut state = self.workspaces.remove(&w).unwrap();
        state.active_window = window;
        self.workspaces.insert(w, state);
        proof {
            assert(self@.workspaces =~= before.set_active_window(w, window).workspaces);
            assert(self@ =~= before.set_active_window(w, window));
        }
    }

    fn set_tab_active_pane(&mut self, t: u64, pane: PaneId)
        requires
            old(self)@.tabs.contains_key(t),
        ensures
            final(self)@ == old(self)@.set_active_pane(t, pane),
            final(self).same_orders(old(self)),
    {
        let ghost before = self@;
        let mut state = self.tabs.remove(&t).unwrap();
        state.active_pane = pane;
        self.tabs.insert(t, state);
        proof {
            assert(self@.tabs =~= before.set_active_pane(t, pane).tabs);
            assert(self@ =~= before.set_active_pane(t, pane));
        }
    }

    fn push_event(&mut self, event: Event)
        ensures
            final(self)@ == old(self)@.push_event(event),
            final(self).same_orders(old(self)),
    {
        self.events.push(event);
        proof {
            assert(self@ =~= old(self)@.push_event(event));
        }
    }

    fn focus_tab(&mut self, tab: TabId)
        requires
            old(self)@.structure_ok(),
            old(self)@.tabs.contains_key(tab.0),
        ensures
            final(self)@ == old(self)@.focus_tab(tab.0),
            final(self)@.wf(),
            final(self).same_orders(old(self)),
    {
        proof {
            lemma_focus_tab(self@, tab.0);
            assert(self@.tab_ok(tab.0));
            assert(self@.window_ok(self@.tabs[tab.0].window.0));
        }
        let window = self.tabs.get(&tab.0).unwrap().window;
        let workspace = self.windows.get(&window.0).unwrap().workspace;
        self.set_window_active_tab(window.0, tab);
        self.set_workspace_active_window(workspace.0, window);
        self.current_workspace = workspace;
        proof {
            assert(self@ =~= old(self)@.focus_tab(tab.0));
        }
    }

    // -- Queries --------------------------------------------------------------
    pub fn current_workspace(&self) -> (r: WorkspaceId)
        ensures
            r == self@.current_workspace,
    {
        self.current_workspace
    }

    /// The ids of the live workspaces in ascending order.
    pub closed spec fn workspace_ids(&self) -> Seq<u64> {
        self.workspace_order@
    }

    /// The listed workspace ids ascend and are exactly the live ones.
    pub proof fn lemma_workspace_ids(&self)
        requires
            self.wf(),
        ensures
            forall|i: int, j: int|
                0 <= i < j < self.workspace_ids().len() ==> self.workspace_ids()[i]
                    < self.workspace_ids()[j],
            forall|k: u64| #[trigger]
                self.workspace_ids().contains(k) <==> self@.workspaces.contains_key(k),
            self.workspace_ids().len() == self@.workspaces.dom().len(),
            self@.workspaces.dom().finite(),
    {
        let o = self.workspace_order@;
        assert forall|k: u64| #[trigger] o.contains(k) <==> self@.workspaces.contains_key(k) by {
            if o.contains(k) {
                let i = choose|i: int| 0 <= i < o.len() && o[i] == k;
            }
        }
        lemma_order_no_duplicates(o, self@.workspaces.dom(), self.next_id);
        lemma_order_to_set(o, self@.workspaces.dom(), self.next_id);
        assert(o.take(o.len() as int) =~= o);
        o.unique_seq_to_set();
        assert(self.workspaces@.dom().finite());
        assert(self@.workspaces.dom() =~= self.workspaces@.dom());
    }

    /// A well-formed multiplexer has a well-formed model.
    pub proof fn lemma_wf_model(&self)
        requires
            self.wf(),
        ensures
            self@.wf(),
    {
    }

    /// A window lists each of its tabs once.
    pub proof fn lemma_window_tabs_distinct(&self, n: u64)
        requires
            self.wf(),
            self@.windows.contains_key(n),
        ensures
            self@.windows[n].tabs.no_duplicates(),
    {
        assert(self@.window_ok(n));
    }

    /// The live workspaces in ascending id order.
    pub fn workspaces(&self) -> (r: Vec<WorkspaceId>)
        requires
            self.wf(),
        ensures
            r@ == self.workspace_ids().map_values(|w: u64| WorkspaceId(w)),
            forall|i: int, j: int| 0 <= i < j < r@.len() ==> r@[i].0 < r@[j].0,
            forall|w: WorkspaceId| #[trigger] r@.contains(w) <==> self@.workspaces.contains_key(w.0),
    {
        let mut r = Vec::new();
        let mut i: usize = 0;
        while i < self.workspace_order.len()
            invariant
                i <= self.workspace_order@.len(),
                r@ == self.workspace_order@.take(i as int).map_values(|w: u64| WorkspaceId(w)),
            decreases self.workspace_order@.len() - i,
        {
            r.push(WorkspaceId(self.workspace_order[i]));
            i = i + 1;
            proof {
                assert(r@ =~= self.workspace_order@.take(i as int).map_values(
                    |w: u64| WorkspaceId(w),
                ));
            }
        }
        proof {
            let o = self.workspace_order@;
            assert(o.take(i as int) =~= o);
            assert forall|w: WorkspaceId| #[trigger] r@.contains(w) <==> self@.workspaces.contains_key(w.0) by {
                if r@.contains(w) {
                    let k = choose|k: int| 0 <= k < r@.len() && r@[k] == w;
                    assert(o[k] == w.0);
                }
                if self@.workspaces.contains_key(w.0) {
                    assert(o.contains(w.0));
                    let k = choose|k: int| 0 <= k < o.len() && o[k] == w.0;
                    assert(r@[k] == w);
                }
            }
        }
        r
    }

    pub fn workspace_name(&self, workspace: WorkspaceId) -> (r: Option<&str>)
        ensures
            match r {
                Some(name) => self@.workspaces.contains_key(workspace.0) && name@
                    == self@.workspaces[workspace.0].name,
                None => !self@.workspaces.contains_key(workspace.0),
            },
    {
        match self.workspaces.get(&workspace.0) {
            Some(state) => Some(state.name.as_str()),
            None => None,
        }
    }

    pub fn workspace_windows(&self, workspace: WorkspaceId) -> (r: Option<&[WindowId]>)
        ensures
            match r {
                Some(windows) => self@.workspaces.contains_key(workspace.0) && windows@
                    == self@.workspaces[workspace.0].windows,
                None => !self@.workspaces.contains_key(workspace.0),
            },
    {
        match self.workspaces.get(&workspace.0) {
            Some(state) => Some(state.windows.as_slice()),
            None => None,
        }
    }

    pub fn current_window(&self) -> (r: Option<WindowId>)
        ensures
            self@.workspaces.contains_key(self@.current_workspace.0) ==> r == Some(
                self@.current_window(),
            ),
            !self@.workspaces.contains_key(self@.current_workspace.0) ==> r is None,
    {
        match self.workspaces.get(&self.current_workspace.0) {
            Some(state) => Some(state.active_window),
            None => None,
        }
    }

    pub fn current_tab(&self) -> (r: Option<TabId>)
        ensures
            self@.wf() ==> r == Some(self@.current_tab()),
    {
        match self.current_window() {
            Some(window) => match self.windows.get(&window.0) {
                Some(state) => Some(state.active_tab),
                None => None,
            },
            None => None,
        }
    }

    pub fn current_pane(&self) -> (r: Option<PaneId>)
        ensures
            self@.wf() ==> r == Some(self@.current_pane()),
    {
        proof {
            if self@.wf() {
                let v = self@;
                assert(v.workspace_ok(v.current_workspace.0));
                assert(v.window_ok(v.current_window().0));
                assert(v.tab_ok(v.current_tab().0));
            }
        }
        match self.current_tab() {
            Some(tab) => match self.tabs.get(&tab.0) {
                Some(state) => Some(state.active_pane),
                None => None,
            },
            None => None,
        }
    }

    pub fn pane_tree(&self, tab: TabId) -> (r: Option<&PaneNode>)
        ensures
            match r {
                Some(root) => self@.tabs.contains_key(tab.0) && *root == self@.tabs[tab.0].root,
                None => !self@.tabs.contains_key(tab.0),
            },
    {
        match self.tabs.get(&tab.0) {
            Some(state) => Some(&state.root),
            None => None,
        }
    }

    pub fn tabs(&self, window: WindowId) -> (r: Option<&[TabId]>)
        ensures
            match r {
                Some(tabs) => self@.windows.contains_key(window.0) && tabs@
                    == self@.windows[window.0].tabs,
                None => !self@.windows.contains_key(window.0),
            },
    {
        match self.windows.get(&window.0) {
            Some(state) => Some(state.tabs.as_slice()),
            None => None,
        }
    }

    /// The tab that owns `pane`.
    pub fn pane_tab(&self, pane: PaneId) -> (r: Option<TabId>)
        ensures
            match r {
                Some(tab) => self@.panes.contains_key(pane.0) && tab == self@.panes[pane.0].tab,
                None => !self@.panes.contains_key(pane.0),
            },
    {
        match self.panes.get(&pane.0) {
            Some(state) => Some(state.tab),
            None => None,
        }
    }

    /// The zoomed pane of `tab`: its focused pane while zoom is on.
    pub fn zoomed_pane(&self, tab: TabId) -> (r: Option<PaneId>)
        ensures
            r == (if self@.tabs.contains_key(tab.0) && self@.tabs[tab.0].zoomed {
                Some(self@.tabs[tab.0].active_pane)
            } else {
                None
            }),
    {
        match self.tabs.get(&tab.0) {
            Some(state) => if state.zoomed {
                Some(state.active_pane)
            } else {
                None
            },
            None => None,
        }
    }

    /// The tab's one-based position within its window.
    pub fn tab_number(&self, tab: TabId) -> (r: Option<usize>)
        requires
            self.wf(),
        ensures
            match r {
                Some(number) => self@.tabs.contains_key(tab.0) && 1 <= number && number
                    <= self@.windows[self@.tabs[tab.0].window.0].tabs.len()
                    && self@.windows[self@.tabs[tab.0].window.0].tabs[number - 1] == tab,
                None => !self@.tabs.contains_key(tab.0),
            },
    {
        let window = match self.tabs.get(&tab.0) {
            Some(state) => state.window,
            None => return None,
        };
        proof {
            assert(self@.tab_ok(tab.0));
        }
        let tabs = &self.windows.get(&window.0).unwrap().tabs;
        assert(tabs@ == self@.windows[window.0].tabs);
        let mut i: usize = 0;
        while i < tabs.len()
            invariant
                i <= tabs@.len(),
                tabs@ == self@.windows[window.0].tabs,
                window == self@.tabs[tab.0].window,
                self@.tabs.contains_key(tab.0),
                forall|j: int| 0 <= j < i ==> tabs@[j] != tab,
            decreases tabs@.len() - i,
        {
            if tabs[i] == tab {
                return Some(i + 1);
            }
            i = i + 1;
        }
        proof {
            assert(false);
        }
        None
    }

    pub fn tab_panes(&self, tab: TabId) -> (r: Option<Vec<PaneId>>)
        ensures
            match r {
                Some(panes) => self@.tabs.contains_key(tab.0) && panes@
                    == self@.tabs[tab.0].root.spec_panes(),
                None => !self@.tabs.contains_key(tab.0),
            },
    {
        match self.tabs.get(&tab.0) {
            Some(state) => Some(state.root.panes()),
            None => None,
        }
    }

    /// The live panes in ascending id order.
    pub fn pane_ids(&self) -> (r: Vec<PaneId>)
        requires
            self.wf(),
        ensures
            forall|i: int, j: int| 0 <= i < j < r@.len() ==> r@[i].0 < r@[j].0,
            forall|p: PaneId| #[trigger] r@.contains(p) <==> self@.panes.contains_key(p.0),
    {
        let mut r = Vec::new();
        let mut i: usize = 0;
        while i < self.pane_order.len()
            invariant
                i <= self.pane_order@.len(),
                r@ == self.pane_order@.take(i as int).map_values(|p: u64| PaneId(p)),
            decreases self.pane_order@.len() - i,
        {
            r.push(PaneId(self.pane_order[i]));
            i = i + 1;
            proof {
                assert(r@ =~= self.pane_order@.take(i as int).map_values(|p: u64| PaneId(p)));
            }
        }
        proof {
            let o = self.pane_order@;
            assert(o.take(i as int) =~= o);
            assert forall|p: PaneId| #[trigger] r@.contains(p) <==> self@.panes.contains_key(p.0) by {
                if r@.contains(p) {
                    let k = choose|k: int| 0 <= k < r@.len() && r@[k] == p;
                    assert(o[k] == p.0);
                }
                if self@.panes.contains_key(p.0) {
                    assert(o.contains(p.0));
                    let k = choose|k: int| 0 <= k < o.len() && o[k] == p.0;
                    assert(r@[k] == p);
                }
            }
        }
        r
    }

    /// The live windows in ascending id order.
    pub fn window_ids(&self) -> (r: Vec<WindowId>)
        requires
            self.wf(),
        ensures
            forall|i: int, j: int| 0 <= i < j < r@.len() ==> r@[i].0 < r@[j].0,
            forall|w: WindowId| #[trigger] r@.contains(w) <==> self@.windows.contains_key(w.0),
    {
        let mut r = Vec::new();
        let mut i: usize = 0;
        while i < self.window_order.len()
            invariant
                i <= self.window_order@.len(),
                r@ == self.window_order@.take(i as int).map_values(|w: u64| WindowId(w)),
            decreases self.window_order@.len() - i,
        {
            r.push(WindowId(self.window_order[i]));
            i = i + 1;
            proof {
                assert(r@ =~= self.window_order@.take(i as int).map_values(|w: u64| WindowId(w)));
            }
        }
        proof {
            let o = self.window_order@;
            assert(o.take(i as int) =~= o);
            assert forall|w: WindowId| #[trigger] r@.contains(w) <==> self@.windows.contains_key(w.0) by {
                if r@.contains(w) {
                    let k = choose|k: int| 0 <= k < r@.len() && r@[k] == w;
                    assert(o[k] == w.0);
                }
                if self@.windows.contains_key(w.0) {
                    assert(o.contains(w.0));
                    let k = choose|k: int| 0 <= k < o.len() && o[k] == w.0;
                    assert(r@[k] == w);
                }
            }
        }
        r
    }

    /// The live tabs in ascending id order.
    pub fn tab_ids(&self) -> (r: Vec<TabId>)
        requires
            self.wf(),
        ensures
            forall|i: int, j: int| 0 <= i < j < r@.len() ==> r@[i].0 < r@[j].0,
            forall|t: TabId| #[trigger] r@.contains(t) <==> self@.tabs.contains_key(t.0),
    {
        let mut r = Vec::new();
        let mut i: usize = 0;
        while i < self.tab_order.len()
            invariant
                i <= self.tab_order@.len(),
                r@ == self.tab_order@.take(i as int).map_values(|t: u64| TabId(t)),
            decreases self.tab_order@.len() - i,
        {
            r.push(TabId(self.tab_order[i]));
            i = i + 1;
            proof {
                assert(r@ =~= self.tab_order@.take(i as int).map_values(|t: u64| TabId(t)));
            }
        }
        proof {
            let o = self.tab_order@;
            assert(o.take(i as int) =~= o);
            assert forall|t: TabId| #[trigger] r@.contains(t) <==> self@.tabs.contains_key(t.0) by {
                if r@.contains(t) {
                    let k = choose|k: int| 0 <= k < r@.len() && r@[k] == t;
                    assert(o[k] == t.0);
                }
                if self@.tabs.contains_key(t.0) {
                    assert(o.contains(t.0));
                    let k = choose|k: int| 0 <= k < o.len() && o[k] == t.0;
                    assert(r@[k] == t);
                }
            }
        }
        r
    }

    pub fn pending_input(&self, pane: PaneId) -> (r: Option<&[u8]>)
        ensures
            match r {
                Some(bytes) => self@.panes.contains_key(pane.0) && bytes@
                    == self@.panes[pane.0].pending_input,
                None => !self@.panes.contains_key(pane.0),
            },
    {
        match self.panes.get(&pane.0) {
            Some(state) => Some(state.pending_input.as_slice()),
            None => None,
        }
    }
}

/// Appends `bytes` to `v`.
fn append_bytes(v: &mut Vec<u8>, bytes: &[u8])
    ensures
        final(v)@ == old(v)@ + bytes@,
{
    let mut i: usize = 0;
    while i < bytes.len()
        invariant
            i <= bytes@.len(),
            v@ == old(v)@ + bytes@.take(i as int),
        decreases bytes@.len() - i,
    {
        v.push(bytes[i]);
        i = i + 1;
        proof {
            assert(v@ =~= old(v)@ + bytes@.take(i as int));
        }
    }
    proof {
        assert(bytes@.take(i as int) =~= bytes@);
    }
}

impl Mux {
    fn activate_pane(&mut self, pane: PaneId) -> (r: Result<(), MuxError>)
        requires
            old(self).wf(),
        ensures
            final(self).wf(),
            old(self)@.panes.contains_key(pane.0) ==> r is Ok && final(self)@ == old(
                self,
            )@.after_activate_pane(pane.0),
            !old(self)@.panes.contains_key(pane.0) ==> r == Err::<(), MuxError>(
                MuxError::UnknownPane(pane),
            ) && final(self)@ == old(self)@,
    {
        let tab = match self.panes.get(&pane.0) {
            Some(state) => state.tab,
            None => return Err(MuxError::UnknownPane(pane)),
        };
        proof {
            lemma_activate_pane(self@, pane.0);
            assert(self@.pane_ok(pane.0));
            lemma_structure_selections(self@);
            let a = self@.set_active_pane(tab.0, pane);
            assert(a.tabs.dom() =~= self@.tabs.dom());
            assert(self@.same_shape(a));
            lemma_same_shape(self@, a);
        }
        self.set_tab_active_pane(tab.0, pane);
        self.focus_tab(tab);
        self.push_event(Event::PaneFocused { pane });
        proof {
            self.keep_orders(old(self));
        }
        Ok(())
    }

    fn activate_tab(&mut self, tab: TabId) -> (r: Result<(), MuxError>)
        requires
            old(self).wf(),
        ensures
            final(self).wf(),
            old(self)@.tabs.contains_key(tab.0) ==> r is Ok && final(self)@ == old(
                self,
            )@.after_activate_tab(tab.0),
            !old(self)@.tabs.contains_key(tab.0) ==> r == Err::<(), MuxError>(
                MuxError::UnknownTab(tab),
            ) && final(self)@ == old(self)@,
    {
        let pane = match self.tabs.get(&tab.0) {
            Some(state) => state.active_pane,
            None => return Err(MuxError::UnknownTab(tab)),
        };
        proof {
            lemma_activate_tab(self@, tab.0);
        }
        self.focus_tab(tab);
        self.push_event(Event::PaneFocused { pane });
        proof {
            self.keep_orders(old(self));
        }
        Ok(())
    }

    fn activate_window(&mut self, window: WindowId) -> (r: Result<(), MuxError>)
        requires
            old(self).wf(),
        ensures
            final(self).wf(),
            old(self)@.windows.contains_key(window.0) ==> r is Ok && final(self)@ == old(
                self,
            )@.after_activate_window(window.0),
            !old(self)@.windows.contains_key(window.0) ==> r == Err::<(), MuxError>(
                MuxError::UnknownWindow(window),
            ) && final(self)@ == old(self)@,
    {
        let workspace = match self.windows.get(&window.0) {
            Some(state) => state.workspace,
            None => return Err(MuxError::UnknownWindow(window)),
        };
        proof {
            lemma_activate_window(self@, window.0);
            assert(self@.window_ok(window.0));
        }
        self.set_workspace_active_window(workspace.0, window);
        self.current_workspace = workspace;
        self.push_event(Event::WorkspaceChanged { workspace });
        proof {
            lemma_wf_current(old(self)@.after_activate_window(window.0));
        }
        let pane = self.current_pane().unwrap();
        self.push_event(Event::PaneFocused { pane });
        proof {
            self.keep_orders(old(self));
        }
        Ok(())
    }

    fn activate_workspace(&mut self, workspace: WorkspaceId) -> (r: Result<(), MuxError>)
        requires
            old(self).wf(),
        ensures
            final(self).wf(),
            old(self)@.workspaces.contains_key(workspace.0) ==> r is Ok && final(self)@ == old(
                self,
            )@.after_activate_workspace(workspace.0),
            !old(self)@.workspaces.contains_key(workspace.0) ==> r == Err::<(), MuxError>(
                MuxError::UnknownWorkspace(workspace),
            ) && final(self)@ == old(self)@,
    {
        if !self.workspaces.contains_key(&workspace.0) {
            return Err(MuxError::UnknownWorkspace(workspace));
        }
        proof {
            lemma_activate_workspace(self@, workspace.0);
        }
        self.current_workspace = workspace;
        self.push_event(Event::WorkspaceChanged { workspace });
        proof {
            lemma_wf_current(old(self)@.after_activate_workspace(workspace.0));
        }
        let pane = self.current_pane().unwrap();
        self.push_event(Event::PaneFocused { pane });
        proof {
            self.keep_orders(old(self));
        }
        Ok(())
    }

    fn toggle_zoom(&mut self)
        requires
            old(self).wf(),
        ensures
            final(self)@ == old(self)@.after_toggle_zoom(),
            final(self).wf(),
    {
        proof {
            lemma_toggle_zoom(self@);
            lemma_wf_current(self@);
        }
        let tab = self.current_tab().unwrap();
        let ghost before = self@;
        let mut state = self.tabs.remove(&tab.0).unwrap();
        state.zoomed = !state.zoomed;
        self.tabs.insert(tab.0, state);
        proof {
            assert(self@.tabs =~= before.after_toggle_zoom().tabs);
            assert(self@ =~= before.after_toggle_zoom());
            self.keep_orders(old(self));
        }
    }

    fn queue_text(&mut self, pane: PaneId, text: &str) -> (r: Result<(), MuxError>)
        requires
            old(self).wf(),
        ensures
            final(self).wf(),
            old(self)@.panes.contains_key(pane.0) ==> r is Ok && final(self)@ == old(
                self,
            )@.with_queued_input(pane.0, text.spec_bytes()).push_event(
                Event::TextQueued { pane, bytes: text.spec_bytes().len() as usize },
            ),
            !old(self)@.panes.contains_key(pane.0) ==> r == Err::<(), MuxError>(
                MuxError::UnknownPane(pane),
            ) && final(self)@ == old(self)@,
    {
        if !self.panes.contains_key(&pane.0) {
            return Err(MuxError::UnknownPane(pane));
        }
        let ghost before = self@;
        let bytes = text.as_bytes();
        let mut state = self.panes.remove(&pane.0).unwrap();
        append_bytes(&mut state.pending_input, bytes);
        self.panes.insert(pane.0, state);
        proof {
            assert(self@.panes =~= before.with_queued_input(pane.0, text.spec_bytes()).panes);
            assert(self@ =~= before.with_queued_input(pane.0, text.spec_bytes()));
            lemma_queued_input(before, pane.0, text.spec_bytes());
            lemma_push_event(self@, Event::TextQueued { pane, bytes: text.len() });
        }
        self.push_event(Event::TextQueued { pane, bytes: text.len() });
        Ok(())
    }

    /// Removes the input queued for a pane so that its process can be sent it.
    pub fn take_pending_input(&mut self, pane: PaneId) -> (r: Result<Vec<u8>, MuxError>)
        requires
            old(self).wf(),
        ensures
            final(self).wf(),
            old(self)@.panes.contains_key(pane.0) ==> (r matches Ok(bytes) && bytes@ == old(
                self,
            )@.panes[pane.0].pending_input && final(self)@ == old(self)@.with_cleared_input(
                pane.0,
            )),
            !old(self)@.panes.contains_key(pane.0) ==> r == Err::<Vec<u8>, MuxError>(
                MuxError::UnknownPane(pane),
            ) && final(self)@ == old(self)@,
    {
        if !self.panes.contains_key(&pane.0) {
            return Err(MuxError::UnknownPane(pane));
        }
        let ghost before = self@;
        let mut state = self.panes.remove(&pane.0).unwrap();
        let mut bytes = Vec::new();
        std::mem::swap(&mut bytes, &mut state.pending_input);
        self.panes.insert(pane.0, state);
        proof {
            assert(self@.panes =~= before.with_cleared_input(pane.0).panes);
            assert(self@ =~= before.with_cleared_input(pane.0));
            lemma_structure_selections(before);
            let r = before.with_cleared_input(pane.0);
            assert(r.panes.dom() =~= before.panes.dom());
            assert(before.same_shape(r));
            lemma_selection_change(before, r);
        }
        Ok(bytes)
    }

    /// Removes and returns the pending events, oldest first.
    pub fn drain_events(&mut self) -> (r: Vec<Event>)
        ensures
            r@ == old(self)@.events,
            final(self)@ == (MuxView { events: Seq::empty(), ..old(self)@ }),
            old(self).wf() ==> final(self).wf(),
    {
        let mut events = Vec::new();
        std::mem::swap(&mut events, &mut self.events);
        proof {
            assert(self@ =~= MuxView { events: Seq::empty(), ..old(self)@ });
            if old(self).wf() {
                lemma_structure_selections(old(self)@);
                assert(old(self)@.same_shape(self@));
                lemma_selection_change(old(self)@, self@);
                self.keep_orders(old(self));
            }
        }
        events
    }
}

impl Mux {
    fn new_tab(&mut self, window: WindowId) -> (r: Result<TabId, MuxError>)
        requires
            old(self).wf(),
            old(self)@.has_room(2),
        ensures
            final(self).wf(),
            old(self)@.windows.contains_key(window.0) ==> r == Ok::<TabId, MuxError>(
                TabId(old(self)@.next_id),
            ) && final(self)@ == old(self)@.after_new_tab(window.0),
            !old(self)@.windows.contains_key(window.0) ==> r == Err::<TabId, MuxError>(
                MuxError::UnknownWindow(window),
            ) && final(self)@ == old(self)@,
    {
        if !self.windows.contains_key(&window.0) {
            return Err(MuxError::UnknownWindow(window));
        }
        let is_current_window = match self.current_window() {
            Some(current) => current == window,
            None => false,
        };
        proof {
            lemma_new_tab(self@, window.0);
        }
        let ghost before = self@;
        let ghost old_wn = self.windows@;
        let ghost old_tb = self.tabs@;
        let ghost old_pn = self.panes@;
        let ghost orders = (
            self.workspace_order@,
            self.window_order@,
            self.tab_order@,
            self.pane_order@,
        );
        let t = self.allocate_id();
        let p = self.allocate_id();
        let pane_state = PaneState { tab: TabId(t), pending_input: Vec::new() };
        let tab_state = TabState {
            window,
            root: PaneNode::Leaf(PaneId(p)),
            active_pane: PaneId(p),
            zoomed: false,
        };
        let mut window_state = self.windows.remove(&window.0).unwrap();
        window_state.tabs.push(TabId(t));
        window_state.active_tab = TabId(t);
        proof {
            lemma_map_values_insert(old_pn, p, pane_state, pane_view_of());
            lemma_map_values_insert(old_tb, t, tab_state, tab_view_of());
            lemma_map_values_insert(old_wn, window.0, window_state, window_view_of());
            assert(old_wn.remove(window.0).insert(window.0, window_state) =~= old_wn.insert(
                window.0,
                window_state,
            ));
        }
        self.panes.insert(p, pane_state);
        self.tabs.insert(t, tab_state);
        self.windows.insert(window.0, window_state);
        self.tab_order.push(t);
        self.pane_order.push(p);
        proof {
            let r = before.with_new_tab(window.0);
            assert(self@.panes == r.panes);
            assert(self@.tabs == r.tabs);
            assert(self@.windows =~= r.windows);
            assert(self@ == r);
            lemma_order_raise(orders.0, before.workspaces.dom(), before.next_id, r.next_id);
            lemma_order_raise(orders.1, before.windows.dom(), before.next_id, r.next_id);
            lemma_order_push(orders.2, before.tabs.dom(), before.next_id, t, r.next_id);
            lemma_order_push(orders.3, before.panes.dom(), before.next_id, p, r.next_id);
            assert(r.windows.dom() =~= before.windows.dom());
            assert(r.tabs.dom() == before.tabs.dom().insert(t));
            assert(r.panes.dom() == before.panes.dom().insert(p));
        }
        self.push_event(Event::TabCreated { tab: TabId(t) });
        self.push_event(Event::PaneCreated { pane: PaneId(p) });
        if is_current_window {
            self.push_event(Event::PaneFocused { pane: PaneId(p) });
        }
        Ok(TabId(t))
    }

    fn create_window(&mut self, workspace: WorkspaceId) -> (r: Result<WindowId, MuxError>)
        requires
            old(self).wf(),
            old(self)@.has_room(3),
        ensures
            final(self).wf(),
            old(self)@.workspaces.contains_key(workspace.0) ==> r == Ok::<WindowId, MuxError>(
                WindowId(old(self)@.next_id),
            ) && final(self)@ == old(self)@.after_create_window(workspace.0),
            !old(self)@.workspaces.contains_key(workspace.0) ==> r == Err::<WindowId, MuxError>(
                MuxError::UnknownWorkspace(workspace),
            ) && final(self)@ == old(self)@,
    {
        if !self.workspaces.contains_key(&workspace.0) {
            return Err(MuxError::UnknownWorkspace(workspace));
        }
        proof {
            lemma_new_window(self@, workspace.0);
        }
        let ghost before = self@;
        let ghost old_ws = self.workspaces@;
        let ghost old_wn = self.windows@;
        let ghost old_tb = self.tabs@;
        let ghost old_pn = self.panes@;
        let ghost orders = (
            self.workspace_order@,
            self.window_order@,
            self.tab_order@,
            self.pane_order@,
        );
        let n = self.allocate_id();
        let t = self.allocate_id();
        let p = self.allocate_id();
        let pane_state = PaneState { tab: TabId(t), pending_input: Vec::new() };
        let tab_state = TabState {
            window: WindowId(n),
            root: PaneNode::Leaf(PaneId(p)),
            active_pane: PaneId(p),
            zoomed: false,
        };
        let mut window_tabs = Vec::new();
        window_tabs.push(TabId(t));
        let window_state = WindowState { workspace, tabs: window_tabs, active_tab: TabId(t) };
        let mut workspace_state = self.workspaces.remove(&workspace.0).unwrap();
        workspace_state.windows.push(WindowId(n));
        workspace_state.active_window = WindowId(n);
        proof {
            lemma_map_values_insert(old_pn, p, pane_state, pane_view_of());
            lemma_map_values_insert(old_tb, t, tab_state, tab_view_of());
            lemma_map_values_insert(old_wn, n, window_state, window_view_of());
            lemma_map_values_insert(old_ws, workspace.0, workspace_state, workspace_view_of());
            assert(old_ws.remove(workspace.0).insert(workspace.0, workspace_state) =~= old_ws.insert(
                workspace.0,
                workspace_state,
            ));
            assert(window_state.view().tabs =~= seq![TabId(t)]);
        }
        self.panes.insert(p, pane_state);
        self.tabs.insert(t, tab_state);
        self.windows.insert(n, window_state);
        self.workspaces.insert(workspace.0, workspace_state);
        self.window_order.push(n);
        self.tab_order.push(t);
        self.pane_order.push(p);
        self.current_workspace = workspace;
        proof {
            let r = before.with_new_window(workspace.0).set_current(workspace);
            assert(self@.panes == r.panes);
            assert(self@.tabs == r.tabs);
            assert(self@.windows == r.windows);
            assert(self@.workspaces =~= r.workspaces);
            assert(self@ == r);
            lemma_order_raise(orders.0, before.workspaces.dom(), before.next_id, r.next_id);
            lemma_order_push(orders.1, before.windows.dom(), before.next_id, n, r.next_id);
            lemma_order_push(orders.2, before.tabs.dom(), before.next_id, t, r.next_id);
            lemma_order_push(orders.3, before.panes.dom(), before.next_id, p, r.next_id);
            assert(r.workspaces.dom() =~= before.workspaces.dom());
            assert(r.windows.dom() == before.windows.dom().insert(n));
            assert(r.tabs.dom() == before.tabs.dom().insert(t));
            assert(r.panes.dom() == before.panes.dom().insert(p));
        }
        self.push_event(Event::WindowCreated { window: WindowId(n) });
        self.push_event(Event::TabCreated { tab: TabId(t) });
        self.push_event(Event::PaneCreated { pane: PaneId(p) });
        self.push_event(Event::PaneFocused { pane: PaneId(p) });
        Ok(WindowId(n))
    }

    fn split_pane(&mut self, pane: PaneId, direction: SplitDirection) -> (r: Result<
        PaneId,
        MuxError,
    >)
        requires
            old(self).wf(),
            old(self)@.has_room(1),
        ensures
            final(self).wf(),
            old(self)@.panes.contains_key(pane.0) ==> ({
                let t = old(self)@.panes[pane.0].tab.0;
                &&& r == Ok::<PaneId, MuxError>(PaneId(old(self)@.next_id))
                &&& final(self)@.tabs[t].root.spec_panes() == panes_after_split(
                    old(self)@.tabs[t].root.spec_panes(),
                    pane,
                    PaneId(old(self)@.next_id),
                    new_pane_goes_first(direction),
                )
                &&& final(self)@ == old(self)@.after_split(pane.0, final(self)@.tabs[t].root)
            }),
            !old(self)@.panes.contains_key(pane.0) ==> r == Err::<PaneId, MuxError>(
                MuxError::UnknownPane(pane),
            ) && final(self)@ == old(self)@,
    {
        let tab = match self.panes.get(&pane.0) {
            Some(state) => state.tab,
            None => return Err(MuxError::UnknownPane(pane)),
        };
        proof {
            assert(self@.panes.contains_key(pane.0));
            assert(self@.pane_ok(pane.0));
            assert(self@.tab_ok(tab.0));
        }
        let ghost before = self@;
        let ghost old_tb = self.tabs@;
        let ghost old_pn = self.panes@;
        let ghost orders = (
            self.workspace_order@,
            self.window_order@,
            self.tab_order@,
            self.pane_order@,
        );
        let q = self.allocate_id();
        let mut state = self.tabs.remove(&tab.0).unwrap();
        state.root.split(pane, PaneId(q), direction);
        state.active_pane = PaneId(q);
        let pane_state = PaneState { tab, pending_input: Vec::new() };
        proof {
            lemma_split(before, pane.0, state.root, new_pane_goes_first(direction));
            lemma_map_values_insert(old_pn, q, pane_state, pane_view_of());
            lemma_map_values_insert(old_tb, tab.0, state, tab_view_of());
            assert(old_tb.remove(tab.0).insert(tab.0, state) =~= old_tb.insert(tab.0, state));
        }
        let ghost root = state.root;
        self.tabs.insert(tab.0, state);
        self.panes.insert(q, pane_state);
        self.pane_order.push(q);
        proof {
            let r = before.with_split_tab(tab.0, root);
            assert(self@.panes == r.panes);
            assert(self@.tabs =~= r.tabs);
            assert(self@ == r);
            lemma_order_raise(orders.0, before.workspaces.dom(), before.next_id, r.next_id);
            lemma_order_raise(orders.1, before.windows.dom(), before.next_id, r.next_id);
            lemma_order_raise(orders.2, before.tabs.dom(), before.next_id, r.next_id);
            lemma_order_push(orders.3, before.panes.dom(), before.next_id, q, r.next_id);
            assert(r.tabs.dom() =~= before.tabs.dom());
            assert(r.panes.dom() == before.panes.dom().insert(q));
        }
        self.focus_tab(tab);
        self.push_event(Event::PaneCreated { pane: PaneId(q) });
        self.push_event(Event::PaneFocused { pane: PaneId(q) });
        proof {
            assert(self@.tabs[tab.0].root == root);
        }
        Ok(PaneId(q))
    }
}

/// Takes the id `x` out of the list `v`.
fn remove_id(v: &mut Vec<u64>, x: u64)
    requires
        old(v)@.no_duplicates(),
        old(v)@.contains(x),
    ensures
        final(v)@ == without(old(v)@, x),
{
    let len = v.len();
    let mut i: usize = 0;
    while v[i] != x
        invariant
            i < v@.len(),
            len == v@.len(),
            v@ == old(v)@,
            exists|j: int| i <= j < v@.len() && v@[j] == x,
        decreases v@.len() - i,
    {
        proof {
            let j = choose|j: int| i <= j < v@.len() && v@[j] == x;
            assert(j != i);
        }
        i = i + 1;
    }
    proof {
        lemma_index_in(old(v)@, i as int);
    }
    v.remove(i);
}

/// Takes the tab `x` out of the list `v`.
fn remove_tab(v: &mut Vec<TabId>, x: TabId)
    requires
        old(v)@.no_duplicates(),
        old(v)@.contains(x),
    ensures
        final(v)@ == without(old(v)@, x),
{
    let len = v.len();
    let mut i: usize = 0;
    while v[i] != x
        invariant
            i < v@.len(),
            len == v@.len(),
            v@ == old(v)@,
            exists|j: int| i <= j < v@.len() && v@[j] == x,
        decreases v@.len() - i,
    {
        proof {
            let j = choose|j: int| i <= j < v@.len() && v@[j] == x;
            assert(j != i);
        }
        i = i + 1;
    }
    proof {
        lemma_index_in(old(v)@, i as int);
    }
    v.remove(i);
}

/// Takes the window `x` out of the list `v`.
fn remove_window(v: &mut Vec<WindowId>, x: WindowId)
    requires
        old(v)@.no_duplicates(),
        old(v)@.contains(x),
    ensures
        final(v)@ == without(old(v)@, x),
{
    let len = v.len();
    let mut i: usize = 0;
    while v[i] != x
        invariant
            i < v@.len(),
            len == v@.len(),
            v@ == old(v)@,
            exists|j: int| i <= j < v@.len() && v@[j] == x,
        decreases v@.len() - i,
    {
        proof {
            let j = choose|j: int| i <= j < v@.len() && v@[j] == x;
            assert(j != i);
        }
        i = i + 1;
    }
    proof {
        lemma_index_in(old(v)@, i as int);
    }
    v.remove(i);
}

impl Mux {
    fn close_pane(&mut self, pane: PaneId) -> (r: Result<(), MuxError>)
        requires
            old(self).wf(),
        ensures
            final(self).wf(),
            !old(self)@.panes.contains_key(pane.0) ==> r == Err::<(), MuxError>(
                MuxError::UnknownPane(pane),
            ) && final(self)@ == old(self)@,
            old(self)@.panes.contains_key(pane.0) ==> ({
                let t = old(self)@.panes[pane.0].tab.0;
                if old(self)@.tabs[t].root.is_leaf() {
                    r == Err::<(), MuxError>(MuxError::CannotCloseLastPane(pane)) && final(self)@
                        == old(self)@
                } else {
                    &&& r is Ok
                    &&& final(self)@.tabs[t].root.spec_panes() == panes_without(
                        old(self)@.tabs[t].root.spec_panes(),
                        pane,
                    )
                    &&& final(self)@ == old(self)@.after_close_pane(
                        pane.0,
                        final(self)@.tabs[t].root,
                    )
                }
            }),
    {
        let tab = match self.panes.get(&pane.0) {
            Some(state) => state.tab,
            None => return Err(MuxError::UnknownPane(pane)),
        };
        proof {
            assert(self@.panes.contains_key(pane.0));
            assert(self@.pane_ok(pane.0));
            assert(self@.tab_ok(tab.0));
        }
        if self.tabs.get(&tab.0).unwrap().root.is_single() {
            return Err(MuxError::CannotCloseLastPane(pane));
        }
        let ghost before = self@;
        let ghost old_tb = self.tabs@;
        let ghost old_pn = self.panes@;
        let ghost old_po = self.pane_order@;
        let mut state = self.tabs.remove(&tab.0).unwrap();
        let mut old_root = PaneNode::Leaf(pane);
        std::mem::swap(&mut old_root, &mut state.root);
        proof {
            old_root.lemma_panes_nonempty();
            assert(old_root.spec_panes() != seq![pane]);
        }
        let (new_root, _) = old_root.remove(pane);
        state.root = new_root.unwrap();
        let refocus = state.active_pane == pane;
        if refocus {
            state.active_pane = state.root.first_pane();
        }
        let active = state.active_pane;
        proof {
            lemma_close_pane(before, pane.0, state.root);
            lemma_map_values_insert(old_tb, tab.0, state, tab_view_of());
            lemma_map_values_remove(old_pn, pane.0, pane_view_of());
            assert(old_tb.remove(tab.0).insert(tab.0, state) =~= old_tb.insert(tab.0, state));
        }
        let ghost root = state.root;
        self.tabs.insert(tab.0, state);
        self.panes.remove(&pane.0);
        proof {
            lemma_order_no_duplicates(old_po, before.panes.dom(), before.next_id);
            assert(old_po.contains(pane.0));
        }
        remove_id(&mut self.pane_order, pane.0);
        proof {
            let r = before.with_pane_removed(pane.0, root);
            assert(self@.panes == r.panes);
            assert(self@.tabs =~= r.tabs);
            assert(self@ == r);
            lemma_order_without(old_po, before.panes.dom(), before.next_id, pane.0);
            assert(r.panes.dom() =~= before.panes.dom().remove(pane.0));
            assert(r.tabs.dom() =~= before.tabs.dom());
        }
        if refocus {
            self.push_event(Event::PaneFocused { pane: active });
        }
        self.push_event(Event::PaneClosed { pane });
        proof {
            assert(self@.tabs[tab.0].root == root);
        }
        Ok(())
    }
}

impl Mux {
    /// Removes the listed panes, recording a close event for each.
    fn remove_panes(&mut self, panes: &Vec<PaneId>)
        requires
            order_ok(old(self).pane_order@, old(self)@.panes.dom(), old(self).next_id),
            panes@.no_duplicates(),
            forall|i: int| 0 <= i < panes@.len() ==> old(self)@.panes.contains_key(#[trigger] panes@[i].0),
        ensures
            final(self)@ == old(self)@.with_panes_closed(panes@),
            order_ok(final(self).pane_order@, final(self)@.panes.dom(), final(self).next_id),
            final(self).workspace_order@ == old(self).workspace_order@,
            final(self).window_order@ == old(self).window_order@,
            final(self).tab_order@ == old(self).tab_order@,
    {
        let ghost before = self@;
        let mut i: usize = 0;
        proof {
            assert(panes@.take(0) =~= Seq::<PaneId>::empty());
            assert(before.panes.remove_keys(pane_keys(panes@.take(0))) =~= before.panes);
            assert(before.events + closed_events(panes@.take(0)) =~= before.events);
            assert(self@ =~= before.with_panes_closed(panes@.take(0)));
        }
        while i < panes.len()
            invariant
                i <= panes@.len(),
                panes@.no_duplicates(),
                forall|j: int| 0 <= j < panes@.len() ==> before.panes.contains_key(#[trigger] panes@[j].0),
                self@ == before.with_panes_closed(panes@.take(i as int)),
                order_ok(self.pane_order@, self@.panes.dom(), self.next_id),
                self.workspace_order@ == old(self).workspace_order@,
                self.window_order@ == old(self).window_order@,
                self.tab_order@ == old(self).tab_order@,
            decreases panes@.len() - i,
        {
            let p = panes[i];
            let ghost cur = self@;
            let ghost pm = self.panes@;
            let ghost po = self.pane_order@;
            proof {
                assert(!panes@.take(i as int).contains(p)) by {
                    if panes@.take(i as int).contains(p) {
                        let k = choose|k: int| 0 <= k < i && panes@.take(i as int)[k] == p;
                        assert(panes@[k] == panes@[i as int]);
                    }
                }
                assert(PaneId(p.0) == p);
                assert(!pane_keys(panes@.take(i as int)).contains(p.0));
                assert(cur.panes.contains_key(p.0));
                lemma_order_no_duplicates(po, cur.panes.dom(), self.next_id);
                lemma_order_without(po, cur.panes.dom(), self.next_id, p.0);
                lemma_map_values_remove(pm, p.0, pane_view_of());
            }
            self.panes.remove(&p.0);
            remove_id(&mut self.pane_order, p.0);
            self.events.push(Event::PaneClosed { pane: p });
            i = i + 1;
            proof {
                let ti = panes@.take(i as int);
                assert(ti =~= panes@.take(i - 1).push(p));
                let tp = panes@.take(i - 1);
                assert forall|k: u64| #[trigger] pane_keys(ti).contains(k) <==> pane_keys(
                    tp,
                ).insert(p.0).contains(k) by {
                    if ti.contains(PaneId(k)) {
                        let j = choose|j: int| 0 <= j < ti.len() && ti[j] == PaneId(k);
                        if j < tp.len() {
                            assert(tp[j] == PaneId(k));
                        }
                    }
                    if tp.contains(PaneId(k)) {
                        let j = choose|j: int| 0 <= j < tp.len() && tp[j] == PaneId(k);
                        assert(ti[j] == PaneId(k));
                    }
                    if k == p.0 {
                        assert(ti[i - 1] == PaneId(k));
                    }
                }
                assert(pane_keys(ti) =~= pane_keys(tp).insert(p.0));
                assert(before.panes.remove_keys(pane_keys(ti)) =~= cur.panes.remove(p.0));
                assert(closed_events(ti) =~= closed_events(panes@.take(i - 1)).push(
                    Event::PaneClosed { pane: p },
                ));
                assert(self@.events =~= before.events + closed_events(ti));
                assert(self@ =~= before.with_panes_closed(ti));
                assert(self@.panes.dom() =~= cur.panes.dom().remove(p.0));
            }
        }
        proof {
            assert(panes@.take(i as int) =~= panes@);
        }
    }

    fn close_tab(&mut self, tab: TabId) -> (r: Result<(), MuxError>)
        requires
            old(self).wf(),
        ensures
            final(self).wf(),
            !old(self)@.tabs.contains_key(tab.0) ==> r == Err::<(), MuxError>(
                MuxError::UnknownTab(tab),
            ) && final(self)@ == old(self)@,
            old(self)@.tabs.contains_key(tab.0) ==> if old(self)@.windows[old(
                self,
            )@.tabs[tab.0].window.0].tabs.len() == 1 {
                r == Err::<(), MuxError>(MuxError::CannotCloseLastTab(tab)) && final(self)@ == old(
                    self,
                )@
            } else {
                r is Ok && final(self)@ == old(self)@.after_close_tab(tab.0)
            },
    {
        let was_current = match self.current_tab() {
            Some(current) => current == tab,
            None => false,
        };
        let window = match self.tabs.get(&tab.0) {
            Some(state) => state.window,
            None => return Err(MuxError::UnknownTab(tab)),
        };
        proof {
            assert(self@.tabs.contains_key(tab.0));
            assert(self@.tab_ok(tab.0));
            assert(self@.window_ok(window.0));
        }
        if self.windows.get(&window.0).unwrap().tabs.len() == 1 {
            return Err(MuxError::CannotCloseLastTab(tab));
        }
        let ghost before = self@;
        proof {
            lemma_close_tab(before, tab.0);
            lemma_tab_pane_keys(before, tab.0);
        }
        let panes = self.tabs.get(&tab.0).unwrap().root.panes();
        proof {
            let ps = before.tabs[tab.0].root.spec_panes();
            assert forall|i: int| 0 <= i < panes@.len() implies before.panes.contains_key(
                #[trigger] panes@[i].0,
            ) by {
                assert(ps.contains(ps[i]));
                assert(PaneId(ps[i].0) == ps[i]);
                assert(pane_keys(ps).contains(ps[i].0));
            }
        }
        self.remove_panes(&panes);
        let ghost mid = self@;
        let ghost old_tb = self.tabs@;
        let ghost old_wn = self.windows@;
        let ghost old_to = self.tab_order@;
        proof {
            lemma_order_no_duplicates(old_to, mid.tabs.dom(), self.next_id);
            lemma_order_without(old_to, mid.tabs.dom(), self.next_id, tab.0);
            lemma_map_values_remove(old_tb, tab.0, tab_view_of());
        }
        self.tabs.remove(&tab.0);
        remove_id(&mut self.tab_order, tab.0);
        let mut state = self.windows.remove(&window.0).unwrap();
        remove_tab(&mut state.tabs, tab);
        if state.active_tab == tab {
            state.active_tab = state.tabs[0];
        }
        proof {
            lemma_map_values_insert(old_wn, window.0, state, window_view_of());
            assert(old_wn.remove(window.0).insert(window.0, state) =~= old_wn.insert(
                window.0,
                state,
            ));
        }
        self.windows.insert(window.0, state);
        self.events.push(Event::TabClosed { tab });
        proof {
            let r = before.with_tab_removed(tab.0);
            assert(self@.windows =~= r.windows);
            assert(self@.tabs =~= r.tabs);
            assert(self@ =~= r);
            assert(r.windows.dom() =~= before.windows.dom());
            assert(r.tabs.dom() =~= before.tabs.dom().remove(tab.0));
        }
        if was_current {
            proof {
                lemma_wf_current(self@);
            }
            let pane = self.current_pane().unwrap();
            self.push_event(Event::PaneFocused { pane });
        }
        Ok(())
    }
}

impl Mux {
    fn close_window(&mut self, window: WindowId) -> (r: Result<(), MuxError>)
        requires
            old(self).wf(),
        ensures
            final(self).wf(),
            !old(self)@.windows.contains_key(window.0) ==> r == Err::<(), MuxError>(
                MuxError::UnknownWindow(window),
            ) && final(self)@ == old(self)@,
            old(self)@.windows.contains_key(window.0) ==> if old(self)@.workspaces[old(
                self,
            )@.windows[window.0].workspace.0].windows.len() == 1 {
                r == Err::<(), MuxError>(MuxError::CannotCloseLastWindow(window)) && final(self)@
                    == old(self)@
            } else {
                r is Ok && final(self)@ == old(self)@.after_close_window(window.0)
            },
    {
        let was_current = match self.current_window() {
            Some(current) => current == window,
            None => false,
        };
        let workspace = match self.windows.get(&window.0) {
            Some(state) => state.workspace,
            None => return Err(MuxError::UnknownWindow(window)),
        };
        proof {
            assert(self@.windows.contains_key(window.0));
            assert(self@.window_ok(window.0));
            assert(self@.workspace_ok(workspace.0));
        }
        if self.workspaces.get(&workspace.0).unwrap().windows.len() == 1 {
            return Err(MuxError::CannotCloseLastWindow(window));
        }
        let ghost v0 = self@;
        let ghost ts = v0.windows[window.0].tabs;
        proof {
            lemma_close_window(v0, window.0);
            lemma_window_tab_keys(v0, window.0);
            assert(self@.tabs.remove_keys(tab_keys(ts.take(0))) =~= self@.tabs);
            assert(self@.panes.remove_keys(v0.panes_of_tabs(ts.take(0))) =~= self@.panes);
            assert(v0.tabs_close_events(ts.take(0)) =~= Seq::<Event>::empty());
            assert(self@.events + v0.tabs_close_events(ts.take(0)) =~= self@.events);
        }
        let count = self.windows.get(&window.0).unwrap().tabs.len();
        let mut i: usize = 0;
        while i < count
            invariant
                v0.wf(),
                v0.windows.contains_key(window.0),
                ts == v0.windows[window.0].tabs,
                count == ts.len(),
                i <= count,
                forall|k: u64| #[trigger]
                    tab_keys(ts).contains(k) <==> (v0.tabs.contains_key(k) && v0.tabs[k].window
                        == WindowId(window.0)),
                self@.workspaces == v0.workspaces,
                self@.windows == v0.windows,
                self@.current_workspace == v0.current_workspace,
                self.next_id == v0.next_id,
                self@.tabs == v0.tabs.remove_keys(tab_keys(ts.take(i as int))),
                self@.panes == v0.panes.remove_keys(v0.panes_of_tabs(ts.take(i as int))),
                self@.events == v0.events + v0.tabs_close_events(ts.take(i as int)),
                order_ok(self.tab_order@, self@.tabs.dom(), self.next_id),
                order_ok(self.pane_order@, self@.panes.dom(), self.next_id),
                self.workspace_order@ == old(self).workspace_order@,
                self.window_order@ == old(self).window_order@,
            decreases count - i,
        {
            let t = self.windows.get(&window.0).unwrap().tabs[i];
            let ghost cur = self@;
            proof {
                assert(t == ts[i as int]);
                assert(ts.no_duplicates()) by {
                    assert(v0.window_ok(window.0));
                }
                assert(!ts.take(i as int).contains(t)) by {
                    if ts.take(i as int).contains(t) {
                        let k = choose|k: int| 0 <= k < i && ts.take(i as int)[k] == t;
                        assert(ts[k] == ts[i as int]);
                    }
                }
                assert(TabId(t.0) == t);
                assert(ts.contains(t));
                assert(tab_keys(ts).contains(t.0));
                assert(!tab_keys(ts.take(i as int)).contains(t.0));
                assert(cur.tabs.contains_key(t.0));
                assert(cur.tabs[t.0] == v0.tabs[t.0]);
                lemma_tab_pane_keys(v0, t.0);
                assert(v0.tab_ok(t.0));
            }
            let panes = self.tabs.get(&t.0).unwrap().root.panes();
            proof {
                let ps = v0.tabs[t.0].root.spec_panes();
                assert(panes@ == ps);
                assert forall|j: int| 0 <= j < panes@.len() implies cur.panes.contains_key(
                    #[trigger] panes@[j].0,
                ) by {
                    assert(ps.contains(ps[j]));
                    assert(PaneId(ps[j].0) == ps[j]);
                    assert(pane_keys(ps).contains(ps[j].0));
                    assert(!v0.panes_of_tabs(ts.take(i as int)).contains(ps[j].0));
                }
            }
            self.remove_panes(&panes);
            let ghost mid = self@;
            let ghost old_tb = self.tabs@;
            let ghost old_to = self.tab_order@;
            proof {
                lemma_order_no_duplicates(old_to, mid.tabs.dom(), self.next_id);
                lemma_order_without(old_to, mid.tabs.dom(), self.next_id, t.0);
                lemma_map_values_remove(old_tb, t.0, tab_view_of());
            }
            self.tabs.remove(&t.0);
            remove_id(&mut self.tab_order, t.0);
            self.events.push(Event::TabClosed { tab: t });
            i = i + 1;
            proof {
                let ti = ts.take(i as int);
                let tp = ts.take(i - 1);
                assert(ti =~= tp.push(t));
                assert forall|k: u64| #[trigger] tab_keys(ti).contains(k) <==> tab_keys(tp).insert(
                    t.0,
                ).contains(k) by {
                    if ti.contains(TabId(k)) {
                        let j = choose|j: int| 0 <= j < ti.len() && ti[j] == TabId(k);
                        if j < tp.len() {
                            assert(tp[j] == TabId(k));
                        }
                    }
                    if tp.contains(TabId(k)) {
                        let j = choose|j: int| 0 <= j < tp.len() && tp[j] == TabId(k);
                        assert(ti[j] == TabId(k));
                    }
                    if k == t.0 {
                        assert(ti[i - 1] == TabId(k));
                    }
                }
                assert(self@.tabs =~= v0.tabs.remove_keys(tab_keys(ti)));
                let ps = v0.tabs[t.0].root.spec_panes();
                assert forall|k: u64| #[trigger] v0.panes_of_tabs(ti).contains(k) <==> (
                v0.panes_of_tabs(tp).contains(k) || pane_keys(ps).contains(k)) by {
                    if v0.panes.contains_key(k) {
                        let y = v0.panes[k].tab;
                        if ti.contains(y) {
                            let j = choose|j: int| 0 <= j < ti.len() && ti[j] == y;
                            if j < tp.len() {
                                assert(tp[j] == y);
                            }
                        }
                        if tp.contains(y) {
                            let j = choose|j: int| 0 <= j < tp.len() && tp[j] == y;
                            assert(ti[j] == y);
                        }
                        if y == t {
                            assert(ti[i - 1] == y);
                        }
                    }
                }
                assert(self@.panes =~= v0.panes.remove_keys(v0.panes_of_tabs(ti)));
                let f = |x: TabId|
                    closed_events(v0.tabs[x.0].root.spec_panes()).push(Event::TabClosed { tab: x });
                tp.lemma_flat_map_push(f, t);
                assert(v0.tabs_close_events(ti) =~= v0.tabs_close_events(tp) + f(t));
                assert(self@.events =~= v0.events + v0.tabs_close_events(ti));
                assert(self@.tabs.dom() =~= mid.tabs.dom().remove(t.0));
            }
        }
        proof {
            assert(ts.take(i as int) =~= ts);
        }
        let ghost old_wn = self.windows@;
        let ghost old_ws = self.workspaces@;
        let ghost old_wo = self.window_order@;
        let ghost pre = self@;
        proof {
            lemma_order_no_duplicates(old_wo, pre.windows.dom(), self.next_id);
            lemma_order_without(old_wo, pre.windows.dom(), self.next_id, window.0);
            lemma_map_values_remove(old_wn, window.0, window_view_of());
        }
        self.windows.remove(&window.0);
        remove_id(&mut self.window_order, window.0);
        let mut state = self.workspaces.remove(&workspace.0).unwrap();
        remove_window(&mut state.windows, window);
        if state.active_window == window {
            state.active_window = state.windows[0];
        }
        proof {
            lemma_map_values_insert(old_ws, workspace.0, state, workspace_view_of());
            assert(old_ws.remove(workspace.0).insert(workspace.0, state) =~= old_ws.insert(
                workspace.0,
                state,
            ));
        }
        self.workspaces.insert(workspace.0, state);
        self.events.push(Event::WindowClosed { window });
        proof {
            let r = v0.with_window_removed(window.0);
            assert(self@.workspaces =~= r.workspaces);
            assert(self@.windows =~= r.windows);
            assert(self@.events =~= r.events);
            assert(self@ =~= r);
            assert(r.workspaces.dom() =~= v0.workspaces.dom());
            assert(r.windows.dom() =~= v0.windows.dom().remove(window.0));
        }
        if was_current {
            proof {
                lemma_wf_current(self@);
            }
            let pane = self.current_pane().unwrap();
            self.push_event(Event::PaneFocused { pane });
        }
        Ok(())
    }
}

impl Mux {
    /// The workspace named `name`, if there is one.
    fn find_workspace(&self, name: &String) -> (r: Option<WorkspaceId>)
        requires
            self.wf(),
        ensures
            match r {
                Some(w) => self@.has_workspace_named(name@) && w.0 == self@.workspace_named(name@),
                None => !self@.has_workspace_named(name@),
            },
    {
        let mut i: usize = 0;
        while i < self.workspace_order.len()
            invariant
                i <= self.workspace_order@.len(),
                self.wf(),
                forall|j: int|
                    0 <= j < i ==> self@.workspaces[#[trigger] self.workspace_order@[j]].name
                        != name@,
            decreases self.workspace_order@.len() - i,
        {
            let k = self.workspace_order[i];
            proof {
                assert(self@.workspaces.contains_key(self.workspace_order@[i as int]));
            }
            let state = self.workspaces.get(&k).unwrap();
            if state.name == *name {
                proof {
                    lemma_workspace_named(self@, k);
                }
                return Some(WorkspaceId(k));
            }
            i = i + 1;
        }
        proof {
            if self@.has_workspace_named(name@) {
                let w = choose|w: u64|
                    #[trigger] self@.workspaces.contains_key(w) && self@.workspaces[w].name == name@;
                assert(self.workspace_order@.contains(w));
                let j = choose|j: int|
                    0 <= j < self.workspace_order@.len() && self.workspace_order@[j] == w;
                assert(self@.workspaces[self.workspace_order@[j]].name != name@);
            }
        }
        None
    }

    /// The workspace named `name`, if there is one.
    pub fn workspace_named(&self, name: &String) -> (r: Option<WorkspaceId>)
        requires
            self.wf(),
        ensures
            match r {
                Some(w) => self@.workspaces.contains_key(w.0) && self@.workspaces[w.0].name
                    == name@,
                None => !self@.has_workspace_named(name@),
            },
    {
        let r = self.find_workspace(name);
        proof {
            if let Some(w) = r {
                let k = choose|k: u64|
                    self@.workspaces.contains_key(k) && self@.workspaces[k].name == name@;
                assert(self@.workspaces.contains_key(k) && self@.workspaces[k].name == name@);
            }
        }
        r
    }

    fn switch_workspace(&mut self, name: String) -> (r: WorkspaceId)
        requires
            old(self).wf(),
            old(self)@.has_workspace_named(name@) || old(self)@.has_room(4),
        ensures
            final(self).wf(),
            r == old(self)@.switch_target(name@),
            final(self)@ == old(self)@.after_switch_workspace(name@),
    {
        proof {
            lemma_switch_workspace(self@, name@);
        }
        let ghost target = self@.switch_target(name@);
        let found = self.find_workspace(&name);
        let workspace = match found {
            Some(w) => w,
            None => self.create_workspace(name),
        };
        self.current_workspace = workspace;
        proof {
            assert(self.orders_ok());
        }
        self.push_event(Event::WorkspaceChanged { workspace });
        proof {
            lemma_wf_current(self@);
        }
        let pane = self.current_pane().unwrap();
        self.push_event(Event::PaneFocused { pane });
        workspace
    }

    /// Removes `pane`, the single pane of the single tab of its window, with
    /// that tab and window, when another pane `q` lives on.
    #[verifier::spinoff_prover]
    #[verifier::rlimit(60)]
    fn remove_lone_pane(&mut self, pane: PaneId, tab: TabId, window: WindowId, Ghost(q): Ghost<u64>)
        requires
            old(self).wf(),
            old(self)@.panes.contains_key(pane.0),
            old(self)@.panes[pane.0].tab == tab,
            old(self)@.tabs[tab.0].window == window,
            old(self)@.tabs[tab.0].root.is_leaf(),
            old(self)@.windows[window.0].tabs.len() == 1,
            old(self)@.panes.contains_key(q),
            q != pane.0,
        ensures
            final(self).wf(),
            final(self)@ == old(self)@.after_exited_window(pane.0),
    {
        let ghost v = self@;
        proof {
            assert(v.pane_ok(pane.0));
            assert(v.tab_ok(tab.0));
            assert(v.window_ok(window.0));
            lemma_alone_in_window(v, pane.0);
        }
        let was_current = match self.current_pane() {
            Some(current) => current == pane,
            None => false,
        };
        let workspace = self.windows.get(&window.0).unwrap().workspace;
        let ghost po = self.pane_order@;
        let ghost to = self.tab_order@;
        let ghost wo = self.window_order@;
        let ghost pm = self.panes@;
        let ghost tm = self.tabs@;
        let ghost wm = self.windows@;
        proof {
            lemma_order_without(po, v.panes.dom(), self.next_id, pane.0);
            lemma_order_no_duplicates(to, v.tabs.dom(), self.next_id);
            lemma_order_without(to, v.tabs.dom(), self.next_id, tab.0);
            lemma_order_no_duplicates(wo, v.windows.dom(), self.next_id);
            lemma_order_without(wo, v.windows.dom(), self.next_id, window.0);
            lemma_map_values_remove(pm, pane.0, pane_view_of());
            lemma_map_values_remove(tm, tab.0, tab_view_of());
            lemma_map_values_remove(wm, window.0, window_view_of());
        }
        self.panes.remove(&pane.0);
        remove_id(&mut self.pane_order, pane.0);
        self.tabs.remove(&tab.0);
        remove_id(&mut self.tab_order, tab.0);
        self.windows.remove(&window.0);
        remove_id(&mut self.window_order, window.0);
        self.events.push(Event::PaneClosed { pane });
        self.events.push(Event::TabClosed { tab });
        self.events.push(Event::WindowClosed { window });
        proof {
            assert(self@ =~= v.exited_base(pane.0));
        }
        let ghost wsm = self.workspaces@;
        let ghost wso = self.workspace_order@;
        let remove_workspace = self.workspaces.get(&workspace.0).unwrap().windows.len() == 1;
        if remove_workspace {
            proof {
                assert(v.workspace_ok(workspace.0));
                lemma_order_no_duplicates(wso, v.workspaces.dom(), self.next_id);
                lemma_order_without(wso, v.workspaces.dom(), self.next_id, workspace.0);
                lemma_map_values_remove(wsm, workspace.0, workspace_view_of());
            }
            self.workspaces.remove(&workspace.0);
            remove_id(&mut self.workspace_order, workspace.0);
            if self.current_workspace == workspace {
                proof {
                    // The surviving pane keeps another workspace alive.
                    let tq = v.panes[q].tab.0;
                    assert(v.pane_ok(q));
                    assert(v.tab_ok(tq));
                    let nq = v.tabs[tq].window.0;
                    assert(v.window_ok(nq));
                    let wq = v.windows[nq].workspace.0;
                    let ws = v.workspaces[workspace.0].windows;
                    assert(ws =~= seq![window]) by {
                        let i = choose|i: int| 0 <= i < ws.len() && ws[i] == window;
                    }
                    assert(wq != workspace.0);
                    assert(self.workspace_order@.contains(wq));
                }
                let first = self.workspace_order[0];
                proof {
                    let o = self.workspace_order@;
                    assert forall|j: u64|
                        #[trigger] v.workspaces.contains_key(j) && j != workspace.0 implies first
                        <= j by {
                        assert(o.contains(j));
                    }
                    lemma_exited_window(v, pane.0, first);
                }
                self.current_workspace = WorkspaceId(first);
                self.events.push(Event::WorkspaceChanged { workspace: WorkspaceId(first) });
            } else {
                proof {
                    lemma_exited_window(v, pane.0, 0);
                }
            }
        } else {
            proof {
                assert(v.workspace_ok(workspace.0));
                lemma_exited_window(v, pane.0, 0);
            }
            let mut state = self.workspaces.remove(&workspace.0).unwrap();
            remove_window(&mut state.windows, window);
            if state.active_window == window {
                state.active_window = state.windows[0];
            }
            proof {
                lemma_map_values_insert(wsm, workspace.0, state, workspace_view_of());
                assert(wsm.remove(workspace.0).insert(workspace.0, state) =~= wsm.insert(
                    workspace.0,
                    state,
                ));
            }
            self.workspaces.insert(workspace.0, state);
        }
        proof {
            let r = v.with_exited_window_removed(pane.0);
            assert(self@.workspaces =~= r.workspaces);
            assert(self@ =~= r);
            assert(r.panes.dom() =~= v.panes.dom().remove(pane.0));
            assert(r.tabs.dom() =~= v.tabs.dom().remove(tab.0));
            assert(r.windows.dom() =~= v.windows.dom().remove(window.0));
            if remove_workspace {
                assert(r.workspaces.dom() =~= v.workspaces.dom().remove(workspace.0));
            } else {
                assert(r.workspaces.dom() =~= v.workspaces.dom());
            }
        }
        if was_current {
            proof {
                lemma_wf_current(self@);
            }
            let current = self.current_pane().unwrap();
            self.push_event(Event::PaneFocused { pane: current });
        }
    }

    /// Removes a pane whose process has exited, collapsing the tab, window and
    /// workspace that it leaves empty. Returns `true`, changing nothing, when
    /// it is the last pane, so that the caller can end the application
    /// instead of leaving an unusable multiplexer.
    pub fn close_exited_pane(&mut self, pane: PaneId) -> (r: Result<bool, MuxError>)
        requires
            old(self).wf(),
        ensures
            final(self).wf(),
            !old(self)@.panes.contains_key(pane.0) ==> r == Err::<bool, MuxError>(
                MuxError::UnknownPane(pane),
            ) && final(self)@ == old(self)@,
            old(self)@.panes.contains_key(pane.0) ==> (r == Ok::<bool, MuxError>(true)
                <==> old(self)@.panes.dom() == set![pane.0]),
            r == Ok::<bool, MuxError>(false) ==> !final(self)@.panes.contains_key(pane.0),
            final(self)@.panes.contains_key(final(self)@.current_pane().0),
            old(self)@.panes.contains_key(pane.0) ==> ({
                let v = old(self)@;
                let t = v.panes[pane.0].tab.0;
                let n = v.tabs[t].window.0;
                if !v.tabs[t].root.is_leaf() {
                    &&& r == Ok::<bool, MuxError>(false)
                    &&& final(self)@.tabs[t].root.spec_panes() == panes_without(
                        v.tabs[t].root.spec_panes(),
                        pane,
                    )
                    &&& final(self)@ == v.after_close_pane(pane.0, final(self)@.tabs[t].root)
                } else if v.windows[n].tabs.len() > 1 {
                    r == Ok::<bool, MuxError>(false) && final(self)@ == v.after_close_tab(t)
                } else if v.panes.dom() == set![pane.0] {
                    r == Ok::<bool, MuxError>(true) && final(self)@ == v
                } else {
                    r == Ok::<bool, MuxError>(false) && final(self)@ == v.after_exited_window(
                        pane.0,
                    )
                }
            }),
    {
        let tab = match self.panes.get(&pane.0) {
            Some(state) => state.tab,
            None => return Err(MuxError::UnknownPane(pane)),
        };
        let ghost v = self@;
        proof {
            assert(v.panes.contains_key(pane.0));
            if v.panes.dom() == set![pane.0] {
                lemma_only_pane(v, pane.0);
            }
            assert(v.pane_ok(pane.0));
            assert(v.tab_ok(tab.0));
            assert(v.window_ok(v.tabs[tab.0].window.0));
        }
        if !self.tabs.get(&tab.0).unwrap().root.is_single() {
            let _ = self.close_pane(pane);
            return Ok(false);
        }
        let window = self.tabs.get(&tab.0).unwrap().window;
        if self.windows.get(&window.0).unwrap().tabs.len() > 1 {
            let _ = self.close_tab(tab);
            return Ok(false);
        }
        proof {
            assert(self.pane_order@.contains(pane.0));
            lemma_order_no_duplicates(self.pane_order@, v.panes.dom(), self.next_id);
        }
        if self.pane_order.len() == 1 {
            proof {
                assert forall|k: u64| #[trigger] v.panes.dom().contains(k) <==> set![pane.0].contains(k) by {
                    if v.panes.dom().contains(k) {
                        assert(self.pane_order@.contains(k));
                    }
                }
                assert(v.panes.dom() =~= set![pane.0]);
            }
            return Ok(true);
        }
        let ghost q: u64 = if self.pane_order@[0] != pane.0 {
            self.pane_order@[0]
        } else {
            self.pane_order@[1]
        };
        proof {
            assert(self.pane_order@[0] != self.pane_order@[1]);
            assert(v.panes.contains_key(q) && q != pane.0);
            assert(v.panes.dom() != set![pane.0]) by {
                assert(!set![pane.0].contains(q));
            }
        }
        self.remove_lone_pane(pane, tab, window, Ghost(q));
        Ok(false)
    }
}

/// Appends a handle of kind `kind` for each of `ids`.
fn push_handles(r: &mut Vec<NativeHandle>, kind: HandleKind, ids: &Vec<u64>)
    ensures
        forall|h: NativeHandle| #[trigger]
            final(r)@.contains(h) <==> (old(r)@.contains(h) || (h.spec_kind() == kind
                && ids@.contains(h.spec_id()))),
{
    let mut i: usize = 0;
    while i < ids.len()
        invariant
            i <= ids@.len(),
            forall|h: NativeHandle| #[trigger]
                r@.contains(h) <==> (old(r)@.contains(h) || (h.spec_kind() == kind && ids@.take(
                    i as int,
                ).contains(h.spec_id()))),
        decreases ids@.len() - i,
    {
        let handle = NativeHandle::new(kind, ids[i]);
        let ghost before = r@;
        r.push(handle);
        i = i + 1;
        proof {
            let ti = ids@.take(i as int);
            let tp = ids@.take(i - 1);
            assert forall|h: NativeHandle| #[trigger]
                r@.contains(h) <==> (old(r)@.contains(h) || (h.spec_kind() == kind && ti.contains(
                    h.spec_id(),
                ))) by {
                NativeHandle::lemma_handle_equality(h, handle);
                if r@.contains(h) {
                    let k = choose|k: int| 0 <= k < r@.len() && r@[k] == h;
                    if k < before.len() {
                        assert(before.contains(h));
                        if tp.contains(h.spec_id()) {
                            let j = choose|j: int| 0 <= j < tp.len() && tp[j] == h.spec_id();
                            assert(ti[j] == h.spec_id());
                        }
                    } else {
                        assert(ti[i - 1] == h.spec_id());
                    }
                }
                if old(r)@.contains(h) || (h.spec_kind() == kind && ti.contains(h.spec_id())) {
                    if old(r)@.contains(h) || (h.spec_kind() == kind && tp.contains(h.spec_id())) {
                        assert(before.contains(h));
                        let k = choose|k: int| 0 <= k < before.len() && before[k] == h;
                        assert(r@[k] == h);
                    } else {
                        let j = choose|j: int| 0 <= j < ti.len() && ti[j] == h.spec_id();
                        assert(j == i - 1);
                        assert(r@[before.len() as int] == h);
                    }
                }
            }
        }
    }
    proof {
        assert(ids@.take(i as int) =~= ids@);
    }
}

impl Mux {
    /// The handles of every live workspace, window, tab and pane.
    pub fn native_handles(&self) -> (r: Vec<NativeHandle>)
        requires
            self.wf(),
        ensures
            forall|h: NativeHandle| #[trigger] r@.contains(h) <==> self@.has_handle(h),
    {
        let mut r = Vec::new();
        push_handles(&mut r, HandleKind::Workspace, &self.workspace_order);
        push_handles(&mut r, HandleKind::Window, &self.window_order);
        push_handles(&mut r, HandleKind::Tab, &self.tab_order);
        push_handles(&mut r, HandleKind::Pane, &self.pane_order);
        proof {
            assert forall|h: NativeHandle| #[trigger] r@.contains(h) <==> self@.has_handle(h) by {
                let k = h.spec_id();
                if self@.workspaces.contains_key(k) {
                    assert(self.workspace_order@.contains(k));
                }
                if self@.windows.contains_key(k) {
                    assert(self.window_order@.contains(k));
                }
                if self@.tabs.contains_key(k) {
                    assert(self.tab_order@.contains(k));
                }
                if self@.panes.contains_key(k) {
                    assert(self.pane_order@.contains(k));
                }
                if self.workspace_order@.contains(k) {
                    let j = choose|j: int| 0 <= j < self.workspace_order@.len() && self.workspace_order@[j] == k;
                }
                if self.window_order@.contains(k) {
                    let j = choose|j: int| 0 <= j < self.window_order@.len() && self.window_order@[j] == k;
                }
                if self.tab_order@.contains(k) {
                    let j = choose|j: int| 0 <= j < self.tab_order@.len() && self.tab_order@[j] == k;
                }
                if self.pane_order@.contains(k) {
                    let j = choose|j: int| 0 <= j < self.pane_order@.len() && self.pane_order@[j] == k;
                }
            }
        }
        r
    }

    /// A one-line description of the current workspace: its name and how
    /// many windows, tabs and panes it holds.
    pub fn summary(&self) -> (s: String)
        requires
            self.wf(),
        ensures
            s@ == self@.summary_text(),
    {
        let ghost v = self@;
        let cur = self.current_workspace;
        let state = self.workspaces.get(&cur.0).unwrap();
        let window_count = state.windows.len();
        let ghost tp = |k: u64| v.tab_in_workspace(cur, k);
        let ghost pp = |k: u64| v.pane_in_workspace(cur, k);
        proof {
            lemma_order_no_duplicates(self.tab_order@, v.tabs.dom(), self.next_id);
            lemma_order_no_duplicates(self.pane_order@, v.panes.dom(), self.next_id);
            assert(self.tab_order@.take(0).to_set() =~= Set::<u64>::empty());
            assert(self.tab_order@.take(0).to_set().filter(tp) =~= Set::<u64>::empty());
            assert(self.pane_order@.take(0).to_set() =~= Set::<u64>::empty());
            assert(self.pane_order@.take(0).to_set().filter(pp) =~= Set::<u64>::empty());
        }
        let mut tab_count: usize = 0;
        let mut i: usize = 0;
        while i < self.tab_order.len()
            invariant
                self.wf(),
                v == self@,
                cur == v.current_workspace,
                tp == (|k: u64| v.tab_in_workspace(cur, k)),
                self.tab_order@.no_duplicates(),
                i <= self.tab_order@.len(),
                tab_count == self.tab_order@.take(i as int).to_set().filter(tp).len(),
                tab_count <= i,
            decreases self.tab_order@.len() - i,
        {
            let k = self.tab_order[i];
            proof {
                lemma_count_step(self.tab_order@, i as int, tp);
                assert(v.tabs.contains_key(k));
                assert(v.tab_ok(k));
            }
            let window = self.tabs.get(&k).unwrap().window;
            if self.windows.get(&window.0).unwrap().workspace == cur {
                tab_count = tab_count + 1;
            }
            i = i + 1;
        }
        proof {
            lemma_order_to_set(self.tab_order@, v.tabs.dom(), self.next_id);
            assert(v.tabs.dom().filter(tp) == v.tabs_in(cur));
        }
        let mut pane_count: usize = 0;
        let mut j: usize = 0;
        while j < self.pane_order.len()
            invariant
                self.wf(),
                v == self@,
                cur == v.current_workspace,
                pp == (|k: u64| v.pane_in_workspace(cur, k)),
                self.pane_order@.no_duplicates(),
                j <= self.pane_order@.len(),
                pane_count == self.pane_order@.take(j as int).to_set().filter(pp).len(),
                pane_count <= j,
            decreases self.pane_order@.len() - j,
        {
            let k = self.pane_order[j];
            proof {
                lemma_count_step(self.pane_order@, j as int, pp);
                assert(v.panes.contains_key(k));
                assert(v.pane_ok(k));
                assert(v.tab_ok(v.panes[k].tab.0));
            }
            let tab = self.panes.get(&k).unwrap().tab;
            let window = self.tabs.get(&tab.0).unwrap().window;
            if self.windows.get(&window.0).unwrap().workspace == cur {
                pane_count = pane_count + 1;
            }
            j = j + 1;
        }
        proof {
            lemma_order_to_set(self.pane_order@, v.panes.dom(), self.next_id);
            assert(v.panes.dom().filter(pp) == v.panes_in(cur));
        }
        let mut s = String::new();
        push_str(&mut s, "workspace=");
        push_str(&mut s, state.name.as_str());
        push_str(&mut s, " windows=");
        push_decimal(&mut s, window_count as u128);
        push_str(&mut s, " tabs=");
        push_decimal(&mut s, tab_count as u128);
        push_str(&mut s, " panes=");
        push_decimal(&mut s, pane_count as u128);
        proof {
            assert(s@ =~= v.summary_text());
        }
        s
    }
}

impl Mux {
    /// Carries out one request. Every control plane changes the hierarchy
    /// through this entry point.
    pub fn dispatch(&mut self, command: Command) -> (r: Result<CommandResult, MuxError>)
        requires
            old(self).wf(),
            old(self)@.has_room(4),
        ensures
            final(self).wf(),
            old(self)@.dispatch_result(command, r, final(self)@),
    {
        match command {
            Command::NewTab => {
                proof {
                    lemma_wf_current(self@);
                }
                let window = self.current_window().unwrap();
                match self.new_tab(window) {
                    Ok(tab) => Ok(CommandResult::Tab(tab)),
                    Err(e) => Err(e),
                }
            },
            Command::NewTabIn(window) => match self.new_tab(window) {
                Ok(tab) => Ok(CommandResult::Tab(tab)),
                Err(e) => Err(e),
            },
            Command::CreateWindow(workspace) => match self.create_window(workspace) {
                Ok(window) => Ok(CommandResult::Window(window)),
                Err(e) => Err(e),
            },
            Command::ActivateWindow(window) => match self.activate_window(window) {
                Ok(()) => Ok(CommandResult::Window(window)),
                Err(e) => Err(e),
            },
            Command::CloseWindow(window) => match self.close_window(window) {
                Ok(()) => Ok(CommandResult::Empty),
                Err(e) => Err(e),
            },
            Command::ActivateTab(tab) => match self.activate_tab(tab) {
                Ok(()) => Ok(CommandResult::Tab(tab)),
                Err(e) => Err(e),
            },
            Command::CloseTab(tab) => match self.close_tab(tab) {
                Ok(()) => Ok(CommandResult::Empty),
                Err(e) => Err(e),
            },
            Command::Split { pane, direction } => match self.split_pane(pane, direction) {
                Ok(created) => Ok(CommandResult::Pane(created)),
                Err(e) => Err(e),
            },
            Command::ClosePane(pane) => match self.close_pane(pane) {
                Ok(()) => Ok(CommandResult::Empty),
                Err(e) => Err(e),
            },
            Command::ActivatePane(pane) => match self.activate_pane(pane) {
                Ok(()) => Ok(CommandResult::Pane(pane)),
                Err(e) => Err(e),
            },
            Command::SendText { pane, text } => match self.queue_text(pane, text.as_str()) {
                Ok(()) => Ok(CommandResult::Empty),
                Err(e) => Err(e),
            },
            Command::ActivateWorkspace(workspace) => match self.activate_workspace(workspace) {
                Ok(()) => Ok(CommandResult::Workspace(workspace)),
                Err(e) => Err(e),
            },
            Command::SwitchWorkspace(name) => {
                let workspace = self.switch_workspace(name);
                Ok(CommandResult::Workspace(workspace))
            },
            Command::ToggleZoom => {
                self.toggle_zoom();
                Ok(CommandResult::Empty)
            },
        }
    }
}

} // verus!
