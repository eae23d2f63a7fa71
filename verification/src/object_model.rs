//! What scripts see of the multiplexer: its workspaces, windows, tabs and
//! panes in ascending id order, with the titles, directories and process
//! state that the panes' terminals report.
use vstd::prelude::*;
use crate::api::{PaneId, TabId, WindowId, WorkspaceId};
use crate::mux::Mux;
use crate::mux_model::MuxView;
use crate::pty::opt_view;
use crate::text::{decimal, push_decimal, push_str};

verus! {

/// What a pane's terminal and process report, for the script object model.
#[derive(Clone, Debug, PartialEq, Eq)]
pub struct PaneRuntimeInfo {
    pub pane: PaneId,
    pub title: String,
    pub cwd: Option<String>,
    pub process_id: Option<u32>,
    pub command_running: bool,
    pub last_exit_status: Option<i32>,
}

/// A workspace as scripts see it.
#[derive(Clone, Debug, PartialEq, Eq)]
pub struct RubyWorkspace {
    pub id: WorkspaceId,
    pub name: String,
    pub windows: Vec<WindowId>,
}

/// A window as scripts see it.
#[derive(Clone, Debug, PartialEq, Eq)]
pub struct RubyWindow {
    pub id: WindowId,
    pub tabs: Vec<TabId>,
}

/// A tab as scripts see it.
#[derive(Clone, Debug, PartialEq, Eq)]
pub struct RubyTab {
    pub id: TabId,
    pub title: String,
    pub panes: Vec<PaneId>,
}

/// A pane as scripts see it.
#[derive(Clone, Debug, PartialEq, Eq)]
pub struct RubyPane {
    pub id: PaneId,
    pub title: String,
    pub cwd: Option<String>,
    pub pid: Option<u32>,
    pub command_running: bool,
    pub last_exit_status: Option<i32>,
}

/// The whole multiplexer as scripts see it.
#[derive(Clone, Debug, PartialEq, Eq)]
pub struct RubyObjectModel {
    pub current_workspace: WorkspaceId,
    pub current_window: WindowId,
    pub current_tab: TabId,
    pub current_pane: PaneId,
    pub workspaces: Vec<RubyWorkspace>,
    pub windows: Vec<RubyWindow>,
    pub tabs: Vec<RubyTab>,
    pub panes: Vec<RubyPane>,
}

/// The first report about `pane`.
pub open spec fn runtime_for(runtimes: Seq<PaneRuntimeInfo>, pane: PaneId) -> Option<PaneRuntimeInfo>
    decreases runtimes.len(),
{
    if runtimes.len() == 0 {
        None
    } else if runtime_for(runtimes.drop_last(), pane) is Some {
        runtime_for(runtimes.drop_last(), pane)
    } else if runtimes.last().pane == pane {
        Some(runtimes.last())
    } else {
        None
    }
}

proof fn lemma_runtime_for_stable(runtimes: Seq<PaneRuntimeInfo>, pane: PaneId, m: int)
    requires
        0 <= m <= runtimes.len(),
        runtime_for(runtimes.take(m), pane) is Some,
    ensures
        runtime_for(runtimes, pane) == runtime_for(runtimes.take(m), pane),
    decreases runtimes.len(),
{
    if m == runtimes.len() {
        assert(runtimes.take(m) =~= runtimes);
    } else {
        assert(runtimes.drop_last().take(m) =~= runtimes.take(m));
        lemma_runtime_for_stable(runtimes.drop_last(), pane, m);
    }
}

/// Whether `entry` shows `pane` with what its report says, or with the
/// defaults when there is no report.
pub open spec fn pane_entry_ok(entry: RubyPane, pane: PaneId, report: Option<PaneRuntimeInfo>) -> bool {
    &&& entry.id == pane
    &&& match report {
        Some(r) => entry.title@ == r.title@ && opt_view(entry.cwd) == opt_view(r.cwd) && entry.pid
            == r.process_id && entry.command_running == r.command_running && entry.last_exit_status
            == r.last_exit_status,
        None => entry.title@ == "Pane "@ + decimal(pane.0 as nat) && entry.cwd is None && entry.pid
            is None && !entry.command_running && entry.last_exit_status is None,
    }
}

/// Whether `entry` shows the workspace it names as the model has it.
pub open spec fn workspace_entry_ok(v: MuxView, entry: RubyWorkspace) -> bool {
    &&& v.workspaces.contains_key(entry.id.0)
    &&& entry.name@ == v.workspaces[entry.id.0].name
    &&& entry.windows@ == v.workspaces[entry.id.0].windows
}

/// Whether `entry` shows the window it names as the model has it.
pub open spec fn window_entry_ok(v: MuxView, entry: RubyWindow) -> bool {
    &&& v.windows.contains_key(entry.id.0)
    &&& entry.tabs@ == v.windows[entry.id.0].tabs
}

/// Whether `entry` shows the tab it names as the model has it, titled by
/// its position in its window, counted from one.
pub open spec fn tab_entry_ok(v: MuxView, entry: RubyTab) -> bool {
    let t = entry.id;
    &&& v.tabs.contains_key(t.0)
    &&& entry.panes@ == v.tabs[t.0].root.spec_panes()
    &&& exists|n: int|
        1 <= n <= v.windows[v.tabs[t.0].window.0].tabs.len() && #[trigger] v.windows[v.tabs[t.0].window.0].tabs[n
            - 1] == t && entry.title@ == "Tab "@ + decimal(n as nat)
}

/// Ids that ascend strictly and are exactly the keys of `live`.
pub open spec fn lists_keys<V>(ids: Seq<u64>, live: Map<u64, V>) -> bool {
    &&& forall|i: int, j: int| 0 <= i < j < ids.len() ==> ids[i] < ids[j]
    &&& forall|k: u64| #[trigger] ids.contains(k) <==> live.contains_key(k)
}

/// The model that scripts see of the multiplexer `v`, given the pane
/// reports `runtimes`: the current objects, and every workspace, window,
/// tab and pane once, in ascending id order, each as `v` has it.
pub open spec fn object_model_of(
    m: RubyObjectModel,
    v: MuxView,
    runtimes: Option<Seq<PaneRuntimeInfo>>,
) -> bool {
    &&& m.current_workspace == v.current_workspace
    &&& m.current_window == v.current_window()
    &&& m.current_tab == v.current_tab()
    &&& m.current_pane == v.current_pane()
    &&& lists_keys(m.workspaces@.map_values(|e: RubyWorkspace| e.id.0), v.workspaces)
    &&& forall|i: int| 0 <= i < m.workspaces@.len() ==> workspace_entry_ok(v, #[trigger] m.workspaces@[i])
    &&& lists_keys(m.windows@.map_values(|e: RubyWindow| e.id.0), v.windows)
    &&& forall|i: int| 0 <= i < m.windows@.len() ==> window_entry_ok(v, #[trigger] m.windows@[i])
    &&& lists_keys(m.tabs@.map_values(|e: RubyTab| e.id.0), v.tabs)
    &&& forall|i: int| 0 <= i < m.tabs@.len() ==> tab_entry_ok(v, #[trigger] m.tabs@[i])
    &&& lists_keys(m.panes@.map_values(|e: RubyPane| e.id.0), v.panes)
    &&& forall|i: int|
        0 <= i < m.panes@.len() ==> pane_entry_ok(
            #[trigger] m.panes@[i],
            m.panes@[i].id,
            match runtimes {
                Some(rs) => runtime_for(rs, m.panes@[i].id),
                None => None,
            },
        )
}

/// The first report about `pane`, if any.
fn find_runtime(runtimes: &Vec<PaneRuntimeInfo>, pane: PaneId) -> (r: Option<&PaneRuntimeInfo>)
    ensures
        match runtime_for(runtimes@, pane) {
            Some(report) => r == Some(&report),
            None => r is None,
        },
{
    let mut i: usize = 0;
    proof {
        assert(runtimes@.take(0) =~= Seq::<PaneRuntimeInfo>::empty());
    }
    while i < runtimes.len()
        invariant
            i <= runtimes@.len(),
            runtime_for(runtimes@.take(i as int), pane) is None,
        decreases runtimes@.len() - i,
    {
        proof {
            assert(runtimes@.take(i + 1).drop_last() =~= runtimes@.take(i as int));
            assert(runtimes@.take(i + 1).last() == runtimes@[i as int]);
        }
        if runtimes[i].pane == pane {
            proof {
                lemma_runtime_for_stable(runtimes@, pane, i + 1);
            }
            return Some(&runtimes[i]);
        }
        i = i + 1;
    }
    proof {
        assert(runtimes@.take(i as int) =~= runtimes@);
    }
    None
}

fn copy_all<T: Copy>(items: &[T]) -> (r: Vec<T>)
    ensures
        r@ == items@,
{
    let mut out: Vec<T> = Vec::new();
    let mut i: usize = 0;
    while i < items.len()
        invariant
            i <= items@.len(),
            out@ == items@.take(i as int),
        decreases items@.len() - i,
    {
        out.push(items[i]);
        proof {
            assert(out@ =~= items@.take(i + 1));
        }
        i = i + 1;
    }
    proof {
        assert(items@.take(i as int) =~= items@);
    }
    out
}

fn copy_text_opt(o: &Option<String>) -> (r: Option<String>)
    ensures
        opt_view(r) == opt_view(*o),
{
    match o {
        Some(s) => Some(s.clone()),
        None => None,
    }
}

fn pane_entry(pane: PaneId, report: Option<&PaneRuntimeInfo>) -> (r: RubyPane)
    ensures
        pane_entry_ok(
            r,
            pane,
            match report {
                Some(x) => Some(*x),
                None => None,
            },
        ),
{
    match report {
        Some(x) => RubyPane {
            id: pane,
            title: x.title.clone(),
            cwd: copy_text_opt(&x.cwd),
            pid: x.process_id,
            command_running: x.command_running,
            last_exit_status: x.last_exit_status,
        },
        None => {
            let mut title = String::new();
            push_str(&mut title, "Pane ");
            push_decimal(&mut title, pane.0 as u128);
            proof {
                assert(title@ =~= "Pane "@ + decimal(pane.0 as nat));
            }
            RubyPane {
                id: pane,
                title,
                cwd: None,
                pid: None,
                command_running: false,
                last_exit_status: None,
            }
        },
    }
}

/// Builds the model that scripts see of `mux`, with the pane reports
/// `runtimes` when there are any: the current objects, and every
/// workspace, window, tab and pane once, in ascending id order.
pub fn ruby_object_model(mux: &Mux, runtimes: Option<&Vec<PaneRuntimeInfo>>) -> (r: Result<
    RubyObjectModel,
    String,
>)
    requires
        mux.wf(),
    ensures
        r matches Ok(m) && object_model_of(
            m,
            mux@,
            match runtimes {
                Some(rs) => Some(rs@),
                None => None,
            },
        ),
{
    proof {
        mux.lemma_wf_model();
    }
    let current_workspace = mux.current_workspace();
    let current_window = match mux.current_window() {
        Some(w) => w,
        None => {
            return Err(String::from_str("mux has no current window"));
        },
    };
    let current_tab = match mux.current_tab() {
        Some(t) => t,
        None => {
            return Err(String::from_str("mux has no current tab"));
        },
    };
    let current_pane = match mux.current_pane() {
        Some(p) => p,
        None => {
            return Err(String::from_str("mux has no current pane"));
        },
    };

    let workspace_ids = mux.workspaces();
    let mut workspaces: Vec<RubyWorkspace> = Vec::new();
    let mut i: usize = 0;
    while i < workspace_ids.len()
        invariant
            mux.wf(),
            i <= workspace_ids@.len(),
            workspaces@.len() == i,
            forall|k: int| 0 <= k < i ==> (#[trigger] workspaces@[k]).id == workspace_ids@[k],
            forall|k: int| 0 <= k < i ==> workspace_entry_ok(mux@, #[trigger] workspaces@[k]),
            forall|w: WorkspaceId| #[trigger] workspace_ids@.contains(w) <==> mux@.workspaces.contains_key(w.0),
        decreases workspace_ids@.len() - i,
    {
        let id = workspace_ids[i];
        proof {
            assert(workspace_ids@.contains(id));
        }
        let name = match mux.workspace_name(id) {
            Some(n) => n.to_owned(),
            None => String::new(),
        };
        let windows = match mux.workspace_windows(id) {
            Some(ws) => copy_all(ws),
            None => Vec::new(),
        };
        workspaces.push(RubyWorkspace { id, name, windows });
        i = i + 1;
    }

    let window_ids = mux.window_ids();
    let mut windows: Vec<RubyWindow> = Vec::new();
    let mut i: usize = 0;
    while i < window_ids.len()
        invariant
            mux.wf(),
            i <= window_ids@.len(),
            windows@.len() == i,
            forall|k: int| 0 <= k < i ==> (#[trigger] windows@[k]).id == window_ids@[k],
            forall|k: int| 0 <= k < i ==> window_entry_ok(mux@, #[trigger] windows@[k]),
            forall|w: WindowId| #[trigger] window_ids@.contains(w) <==> mux@.windows.contains_key(w.0),
        decreases window_ids@.len() - i,
    {
        let id = window_ids[i];
        proof {
            assert(window_ids@.contains(id));
        }
        let tabs = match mux.tabs(id) {
            Some(ts) => copy_all(ts),
            None => Vec::new(),
        };
        windows.push(RubyWindow { id, tabs });
        i = i + 1;
    }

    let tab_ids = mux.tab_ids();
    let mut tabs: Vec<RubyTab> = Vec::new();
    let mut i: usize = 0;
    while i < tab_ids.len()
        invariant
            mux.wf(),
            i <= tab_ids@.len(),
            tabs@.len() == i,
            forall|k: int| 0 <= k < i ==> (#[trigger] tabs@[k]).id == tab_ids@[k],
            forall|k: int| 0 <= k < i ==> tab_entry_ok(mux@, #[trigger] tabs@[k]),
            forall|t: TabId| #[trigger] tab_ids@.contains(t) <==> mux@.tabs.contains_key(t.0),
        decreases tab_ids@.len() - i,
    {
        let id = tab_ids[i];
        proof {
            assert(tab_ids@.contains(id));
        }
        let panes = match mux.tab_panes(id) {
            Some(ps) => ps,
            None => Vec::new(),
        };
        let number = match mux.tab_number(id) {
            Some(n) => n,
            None => 0,
        };
        let mut title = String::new();
        push_str(&mut title, "Tab ");
        push_decimal(&mut title, number as u128);
        proof {
            assert(title@ =~= "Tab "@ + decimal(number as nat));
        }
        let entry = RubyTab { id, title, panes };
        proof {
            let n = number as int;
            let v = mux@;
            assert(v.windows[v.tabs[id.0].window.0].tabs[n - 1] == id);
            assert(tab_entry_ok(v, entry));
        }
        tabs.push(entry);
        i = i + 1;
    }

    let pane_ids = mux.pane_ids();
    let mut panes: Vec<RubyPane> = Vec::new();
    let mut i: usize = 0;
    while i < pane_ids.len()
        invariant
            mux.wf(),
            i <= pane_ids@.len(),
            panes@.len() == i,
            forall|k: int| 0 <= k < i ==> (#[trigger] panes@[k]).id == pane_ids@[k],
            forall|k: int|
                0 <= k < i ==> pane_entry_ok(
                    #[trigger] panes@[k],
                    panes@[k].id,
                    match runtimes {
                        Some(rs) => runtime_for(rs@, panes@[k].id),
                        None => None,
                    },
                ),
        decreases pane_ids@.len() - i,
    {
        let id = pane_ids[i];
        let report = match runtimes {
            Some(rs) => find_runtime(rs, id),
            None => None,
        };
        panes.push(pane_entry(id, report));
        i = i + 1;
    }

    let model = RubyObjectModel {
        current_workspace,
        current_window,
        current_tab,
        current_pane,
        workspaces,
        windows,
        tabs,
        panes,
    };
    proof {
        let m = model;
        let wids = m.workspaces@.map_values(|e: RubyWorkspace| e.id.0);
        assert(wids =~= workspace_ids@.map_values(|w: WorkspaceId| w.0));
        assert forall|k: u64| #[trigger] wids.contains(k) <==> mux@.workspaces.contains_key(k) by {
            if wids.contains(k) {
                let j = choose|j: int| 0 <= j < wids.len() && wids[j] == k;
                assert(workspace_ids@.contains(workspace_ids@[j]));
            }
            if mux@.workspaces.contains_key(k) {
                assert(workspace_ids@.contains(WorkspaceId(k)));
                let j = choose|j: int| 0 <= j < workspace_ids@.len() && workspace_ids@[j] == WorkspaceId(k);
                assert(wids[j] == k);
            }
        }
        let nids = m.windows@.map_values(|e: RubyWindow| e.id.0);
        assert(nids =~= window_ids@.map_values(|w: WindowId| w.0));
        assert forall|k: u64| #[trigger] nids.contains(k) <==> mux@.windows.contains_key(k) by {
            if nids.contains(k) {
                let j = choose|j: int| 0 <= j < nids.len() && nids[j] == k;
                assert(window_ids@.contains(window_ids@[j]));
            }
            if mux@.windows.contains_key(k) {
                assert(window_ids@.contains(WindowId(k)));
                let j = choose|j: int| 0 <= j < window_ids@.len() && window_ids@[j] == WindowId(k);
                assert(nids[j] == k);
            }
        }
        let tids = m.tabs@.map_values(|e: RubyTab| e.id.0);
        assert(tids =~= tab_ids@.map_values(|t: TabId| t.0));
        assert forall|k: u64| #[trigger] tids.contains(k) <==> mux@.tabs.contains_key(k) by {
            if tids.contains(k) {
                let j = choose|j: int| 0 <= j < tids.len() && tids[j] == k;
                assert(tab_ids@.contains(tab_ids@[j]));
            }
            if mux@.tabs.contains_key(k) {
                assert(tab_ids@.contains(TabId(k)));
                let j = choose|j: int| 0 <= j < tab_ids@.len() && tab_ids@[j] == TabId(k);
                assert(tids[j] == k);
            }
        }
        let pids = m.panes@.map_values(|e: RubyPane| e.id.0);
        assert(pids =~= pane_ids@.map_values(|p: PaneId| p.0));
        assert forall|k: u64| #[trigger] pids.contains(k) <==> mux@.panes.contains_key(k) by {
            if pids.contains(k) {
                let j = choose|j: int| 0 <= j < pids.len() && pids[j] == k;
                assert(pane_ids@.contains(pane_ids@[j]));
            }
            if mux@.panes.contains_key(k) {
                assert(pane_ids@.contains(PaneId(k)));
                let j = choose|j: int| 0 <= j < pane_ids@.len() && pane_ids@[j] == PaneId(k);
                assert(pids[j] == k);
            }
        }
    }
    Ok(model)
}

} // verus!
