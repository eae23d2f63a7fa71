//! Where native commands come in: which origins may send which domains,
//! how a user action is resolved against the hierarchy position it was
//! requested for, and how multiplexer events become script events.
use std::collections::VecDeque;

use vstd::prelude::*;

use crate::api::{
    ActionCommand, ActionContext, ClipboardCommand, Command, CommandResult, ConfigCommand, Event,
    NativeAction, NativeCommand, PaneCommand, PaneId, PaneSearchDirection, ScriptCommand,
    ScriptEventKind, SplitDirection, TabId, UiCommand, WindowCommand, WindowId, WorkspaceId,
};
use crate::mux::{Mux, MuxError};
use crate::mux_model::{index_in, lemma_index_in, MuxView};
use crate::text::{decimal, lemma_decimal_injective, push_decimal, push_str};
use crate::script_queue::RubyEvent;

verus! {

/// Who asked for a native command.
#[derive(Clone, Copy, Debug, PartialEq, Eq, Structural)]
pub enum CommandOrigin {
    Script,
    Ipc,
    Keybinding,
}

/// Which path a multiplexer command takes.
#[derive(Clone, Copy, Debug, PartialEq, Eq, Structural)]
pub enum MuxDispatch {
    Coordinator,
    Gui,
}

/// Effects on the application as a whole that a command asks for.
#[derive(Clone, Copy, Debug, PartialEq, Eq, Structural)]
pub struct ControlEffects {
    pub reload_config: bool,
}

impl ControlEffects {
    /// The effect of reloading the configuration.
    pub fn reload_config() -> (e: ControlEffects)
        ensures
            e.reload_config,
    {
        ControlEffects { reload_config: true }
    }
}

impl Default for ControlEffects {
    fn default() -> (e: ControlEffects)
        ensures
            !e.reload_config,
    {
        ControlEffects { reload_config: false }
    }
}

/// A command routed to the handler of its domain.
#[derive(Clone, Debug, PartialEq)]
pub enum DomainCommand {
    Mux(Command),
    Pane(PaneCommand),
    Window(WindowCommand),
    Ui(UiCommand),
    Clipboard(ClipboardCommand),
    Script(ScriptCommand),
    Config(ConfigCommand),
}

/// The message of a command refused over IPC.
pub open spec fn ipc_refusal() -> Seq<char> {
    "native command domain is not exposed over IPC"@
}

/// Whether `origin` may send `command`: the IPC server only reaches the
/// multiplexer and the configuration.
pub open spec fn origin_allows(origin: CommandOrigin, command: NativeCommand) -> bool {
    origin != CommandOrigin::Ipc || command is Mux || command is Config
}

/// Checks that `origin` may send `command`.
pub fn validate_command_origin(origin: CommandOrigin, command: &NativeCommand) -> (r: Result<
    (),
    String,
>)
    ensures
        r is Ok <==> origin_allows(origin, *command),
        r matches Err(message) ==> message@ == ipc_refusal(),
{
    let exposed = match command {
        NativeCommand::Mux(_) | NativeCommand::Config(_) => true,
        _ => false,
    };
    if origin == CommandOrigin::Ipc && !exposed {
        return Err("native command domain is not exposed over IPC".to_owned());
    }
    Ok(())
}

/// Script commands go through the coordinator, which collects the script
/// events they cause; the others take the interactive path.
pub fn resolve_mux_dispatch(origin: CommandOrigin) -> (r: MuxDispatch)
    ensures
        r == (if origin == CommandOrigin::Script {
            MuxDispatch::Coordinator
        } else {
            MuxDispatch::Gui
        }),
{
    match origin {
        CommandOrigin::Script => MuxDispatch::Coordinator,
        CommandOrigin::Ipc | CommandOrigin::Keybinding => MuxDispatch::Gui,
    }
}

/// The message of an action that reached the domain dispatcher unresolved.
pub open spec fn unresolved_action() -> Seq<char> {
    "unresolved action reached domain dispatcher"@
}

/// Hands each command to its domain; actions must have been resolved before.
pub fn route_domain_command(command: NativeCommand) -> (r: Result<DomainCommand, String>)
    ensures
        match command {
            NativeCommand::Mux(c) => r == Ok::<DomainCommand, String>(DomainCommand::Mux(c)),
            NativeCommand::Action(_) => r matches Err(m) && m@ == unresolved_action(),
            NativeCommand::Pane(c) => r == Ok::<DomainCommand, String>(DomainCommand::Pane(c)),
            NativeCommand::Window(c) => r == Ok::<DomainCommand, String>(DomainCommand::Window(c)),
            NativeCommand::Ui(c) => r == Ok::<DomainCommand, String>(DomainCommand::Ui(c)),
            NativeCommand::Clipboard(c) => r == Ok::<DomainCommand, String>(
                DomainCommand::Clipboard(c),
            ),
            NativeCommand::Script(c) => r == Ok::<DomainCommand, String>(DomainCommand::Script(c)),
            NativeCommand::Config(c) => r == Ok::<DomainCommand, String>(DomainCommand::Config(c)),
        },
{
    match command {
        NativeCommand::Mux(command) => Ok(DomainCommand::Mux(command)),
        NativeCommand::Action(_) => Err("unresolved action reached domain dispatcher".to_owned()),
        NativeCommand::Pane(command) => Ok(DomainCommand::Pane(command)),
        NativeCommand::Window(command) => Ok(DomainCommand::Window(command)),
        NativeCommand::Ui(command) => Ok(DomainCommand::Ui(command)),
        NativeCommand::Clipboard(command) => Ok(DomainCommand::Clipboard(command)),
        NativeCommand::Script(command) => Ok(DomainCommand::Script(command)),
        NativeCommand::Config(command) => Ok(DomainCommand::Config(command)),
    }
}

/// A configuration command becomes an application effect.
pub fn apply_config_command(command: ConfigCommand) -> (e: ControlEffects)
    ensures
        command == ConfigCommand::Reload ==> e.reload_config,
{
    match command {
        ConfigCommand::Reload => ControlEffects::reload_config(),
    }
}

/// Actions that do not act on a particular pane, tab or window.
pub open spec fn spec_action_is_global(action: NativeAction) -> bool {
    ||| action is ReloadConfig
    ||| action is MaximizeWindow
    ||| action is ToggleMaximize
    ||| action is MinimizeWindow
    ||| action is ToggleFullscreen
    ||| action is NewWorkspace
}

/// Whether `action` acts on the application or window as a whole rather
/// than on the hierarchy position it was requested for.
pub fn action_is_global(action: &NativeAction) -> (r: bool)
    ensures
        r == spec_action_is_global(*action),
{
    match action {
        NativeAction::ReloadConfig | NativeAction::MaximizeWindow | NativeAction::ToggleMaximize
        | NativeAction::MinimizeWindow | NativeAction::ToggleFullscreen
        | NativeAction::NewWorkspace => true,
        _ => false,
    }
}

/// The commands that bring the hierarchy back to `context`, outermost first.
pub open spec fn activation_of(context: ActionContext) -> Seq<Command> {
    seq![
        Command::ActivateWorkspace(context.workspace),
        Command::ActivateWindow(context.window),
        Command::ActivateTab(context.tab),
        Command::ActivatePane(context.pane),
    ]
}

/// The commands that re-activate the position an action was requested for;
/// none for global actions.
pub fn context_activation_commands(action: &NativeAction, context: ActionContext) -> (r: Vec<
    Command,
>)
    ensures
        r@ == (if spec_action_is_global(*action) {
            Seq::<Command>::empty()
        } else {
            activation_of(context)
        }),
{
    if action_is_global(action) {
        return Vec::new();
    }
    let mut r = Vec::new();
    r.push(Command::ActivateWorkspace(context.workspace));
    r.push(Command::ActivateWindow(context.window));
    r.push(Command::ActivateTab(context.tab));
    r.push(Command::ActivatePane(context.pane));
    proof {
        assert(r@ =~= activation_of(context));
    }
    r
}

fn window_listed(windows: &[WindowId], window: WindowId) -> (r: bool)
    ensures
        r == windows@.contains(window),
{
    let mut i: usize = 0;
    while i < windows.len()
        invariant
            i <= windows@.len(),
            forall|j: int| 0 <= j < i ==> windows@[j] != window,
        decreases windows@.len() - i,
    {
        if windows[i] == window {
            return true;
        }
        i = i + 1;
    }
    false
}

fn tab_listed(tabs: &[TabId], tab: TabId) -> (r: bool)
    ensures
        r == tabs@.contains(tab),
{
    let mut i: usize = 0;
    while i < tabs.len()
        invariant
            i <= tabs@.len(),
            forall|j: int| 0 <= j < i ==> tabs@[j] != tab,
        decreases tabs@.len() - i,
    {
        if tabs[i] == tab {
            return true;
        }
        i = i + 1;
    }
    false
}

/// Whether `context` still names a workspace holding the window, the window
/// holding the tab, and the tab holding the pane.
pub open spec fn context_is_valid(mux: Mux, context: ActionContext) -> bool {
    let v = mux@;
    &&& v.workspaces.contains_key(context.workspace.0)
    &&& v.workspaces[context.workspace.0].windows.contains(context.window)
    &&& v.windows.contains_key(context.window.0)
    &&& v.windows[context.window.0].tabs.contains(context.tab)
    &&& v.panes.contains_key(context.pane.0)
    &&& v.panes[context.pane.0].tab == context.tab
}

/// Whether the position an action was requested for still exists as it was.
pub fn action_context_is_valid(mux: &Mux, context: ActionContext) -> (r: bool)
    ensures
        r == context_is_valid(*mux, context),
{
    let in_workspace = match mux.workspace_windows(context.workspace) {
        Some(windows) => window_listed(windows, context.window),
        None => false,
    };
    let in_window = match mux.tabs(context.window) {
        Some(tabs) => tab_listed(tabs, context.tab),
        None => false,
    };
    let in_tab = match mux.pane_tab(context.pane) {
        Some(tab) => tab == context.tab,
        None => false,
    };
    in_workspace && in_window && in_tab
}

/// The index after (or before) `current` among `len` positions, wrapping around.
pub open spec fn spec_cycle_index(current: int, len: int, backwards: bool) -> int {
    if backwards {
        (current + len - 1) % len
    } else {
        (current + 1) % len
    }
}

/// Steps `current` forwards or backwards among `len` positions, wrapping around.
pub fn cycle_index(current: usize, len: usize, backwards: bool) -> (r: usize)
    requires
        current < len,
    ensures
        r == spec_cycle_index(current as int, len as int, backwards),
        r < len,
{
    if backwards {
        if current == 0 {
            proof {
                assert((0 + len - 1) % (len as int) == len - 1) by (nonlinear_arith)
                    requires
                        len > 0,
                ;
            }
            len - 1
        } else {
            proof {
                assert((current + len - 1) % (len as int) == current - 1) by (nonlinear_arith)
                    requires
                        0 < current < len,
                ;
            }
            current - 1
        }
    } else {
        if current + 1 == len {
            proof {
                assert((current + 1) % (len as int) == 0) by (nonlinear_arith)
                    requires
                        current + 1 == len,
                        len > 0,
                ;
            }
            0
        } else {
            proof {
                assert((current + 1) % (len as int) == current + 1) by (nonlinear_arith)
                    requires
                        current + 1 < len,
                ;
            }
            current + 1
        }
    }
}

/// The three kinds of marks that a pane can be navigated by.
#[derive(Clone, Copy, Debug, PartialEq, Eq, Structural)]
pub enum NavigationKind {
    Prompt,
    Mark,
    CommandOutput,
}

/// The command that moves to the next (or previous) mark of `kind` in `pane`.
pub open spec fn spec_navigation(pane: PaneId, kind: NavigationKind, previous: bool) -> NativeCommand {
    let direction = if previous {
        PaneSearchDirection::Previous
    } else {
        PaneSearchDirection::Next
    };
    NativeCommand::Ui(
        match kind {
            NavigationKind::Prompt => UiCommand::NavigatePrompt { pane, direction },
            NavigationKind::Mark => UiCommand::NavigateMark { pane, direction },
            NavigationKind::CommandOutput => UiCommand::SelectCommandOutput { pane, direction },
        },
    )
}

/// Builds the command that moves to the next (or previous) mark of `kind`.
pub fn navigation_command(pane: PaneId, kind: NavigationKind, previous: bool) -> (r: NativeCommand)
    ensures
        r == spec_navigation(pane, kind, previous),
{
    let direction = if previous {
        PaneSearchDirection::Previous
    } else {
        PaneSearchDirection::Next
    };
    NativeCommand::Ui(
        match kind {
            NavigationKind::Prompt => UiCommand::NavigatePrompt { pane, direction },
            NavigationKind::Mark => UiCommand::NavigateMark { pane, direction },
            NavigationKind::CommandOutput => UiCommand::SelectCommandOutput { pane, direction },
        },
    )
}

/// The tab after (or before) `current` in `window`, wrapping around; the
/// message says what is missing when there is none.
pub open spec fn tab_step(v: MuxView, window: WindowId, current: TabId, backwards: bool) -> Result<
    TabId,
    Seq<char>,
> {
    if !v.windows.contains_key(window.0) {
        Err("unknown window "@ + decimal(window.0 as nat))
    } else if !v.windows[window.0].tabs.contains(current) {
        Err(
            "active tab "@ + decimal(current.0 as nat) + " is not in window "@ + decimal(
                window.0 as nat,
            ),
        )
    } else {
        let tabs = v.windows[window.0].tabs;
        Ok(tabs[spec_cycle_index(index_in(tabs, current), tabs.len() as int, backwards)])
    }
}

/// The workspace after (or before) `current` in ascending id order, wrapping
/// around; the message says what is missing when there is none.
pub open spec fn workspace_step(ids: Seq<u64>, current: WorkspaceId, backwards: bool) -> Result<
    WorkspaceId,
    Seq<char>,
> {
    if !ids.contains(current.0) {
        Err("active workspace "@ + decimal(current.0 as nat) + " is not registered"@)
    } else {
        Ok(WorkspaceId(ids[spec_cycle_index(index_in(ids, current.0), ids.len() as int, backwards)]))
    }
}

/// Whether a `String` result agrees with a specified result.
pub open spec fn agrees<T>(r: Result<T, String>, s: Result<T, Seq<char>>) -> bool {
    match s {
        Ok(t) => r == Ok::<T, String>(t),
        Err(m) => r matches Err(e) && e@ == m,
    }
}

/// The tab after (or before) `current` in `window`, wrapping around.
pub fn adjacent_tab(mux: &Mux, window: WindowId, current: TabId, backwards: bool) -> (r: Result<
    TabId,
    String,
>)
    requires
        mux.wf(),
    ensures
        agrees(r, tab_step(mux@, window, current, backwards)),
{
    let tabs = match mux.tabs(window) {
        Some(tabs) => tabs,
        None => {
            let mut message = String::new();
            push_str(&mut message, "unknown window ");
            push_decimal(&mut message, window.0 as u128);
            return Err(message);
        },
    };
    proof {
        mux.lemma_window_tabs_distinct(window.0);
    }
    let mut i: usize = 0;
    while i < tabs.len()
        invariant
            i <= tabs@.len(),
            mux@.windows.contains_key(window.0),
            tabs@ == mux@.windows[window.0].tabs,
            tabs@.no_duplicates(),
            forall|j: int| 0 <= j < i ==> tabs@[j] != current,
        decreases tabs@.len() - i,
    {
        if tabs[i] == current {
            proof {
                lemma_index_in(tabs@, i as int);
            }
            let next = cycle_index(i, tabs.len(), backwards);
            proof {
                assert(tabs@.contains(current));
            }
            return Ok(tabs[next]);
        }
        i = i + 1;
    }
    let mut message = String::new();
    push_str(&mut message, "active tab ");
    push_decimal(&mut message, current.0 as u128);
    push_str(&mut message, " is not in window ");
    push_decimal(&mut message, window.0 as u128);
    Err(message)
}

/// The workspace after (or before) `current` in ascending id order, wrapping around.
pub fn adjacent_workspace(mux: &Mux, current: WorkspaceId, backwards: bool) -> (r: Result<
    WorkspaceId,
    String,
>)
    requires
        mux.wf(),
    ensures
        agrees(r, workspace_step(mux.workspace_ids(), current, backwards)),
{
    let workspaces = mux.workspaces();
    proof {
        mux.lemma_workspace_ids();
        let ids = mux.workspace_ids();
        assert forall|a: int, b: int| 0 <= a < ids.len() && 0 <= b < ids.len() && a != b implies ids[a]
            != ids[b] by {
            if a < b {
                assert(ids[a] < ids[b]);
            } else {
                assert(ids[b] < ids[a]);
            }
        }
    }
    let ghost ids = mux.workspace_ids();
    let mut i: usize = 0;
    while i < workspaces.len()
        invariant
            i <= workspaces@.len(),
            workspaces@ == ids.map_values(|w: u64| WorkspaceId(w)),
            ids == mux.workspace_ids(),
            ids.no_duplicates(),
            forall|j: int| 0 <= j < i ==> ids[j] != current.0,
        decreases workspaces@.len() - i,
    {
        if workspaces[i] == current {
            proof {
                lemma_index_in(ids, i as int);
            }
            let next = cycle_index(i, workspaces.len(), backwards);
            proof {
                assert(workspaces@[i as int] == WorkspaceId(ids[i as int]));
                assert(ids[i as int] == current.0);
                assert(ids.contains(current.0));
            }
            return Ok(workspaces[next]);
        }
        i = i + 1;
    }
    proof {
        if ids.contains(current.0) {
            let j = choose|j: int| 0 <= j < ids.len() && ids[j] == current.0;
        }
    }
    let mut message = String::new();
    push_str(&mut message, "active workspace ");
    push_decimal(&mut message, current.0 as u128);
    push_str(&mut message, " is not registered");
    Err(message)
}

/// The default name of the `n`-th workspace.
pub open spec fn workspace_label(n: nat) -> Seq<char> {
    "Workspace "@ + decimal(n)
}

/// The live workspaces named like the default name of some number from `from` on.
pub open spec fn labelled_from(v: MuxView, from: nat) -> Set<u64> {
    v.workspaces.dom().filter(
        |w: u64| exists|k: nat| k >= from && #[trigger] workspace_label(k) == v.workspaces[w].name,
    )
}

/// The default name for a new workspace: "Workspace n" for the first `n`
/// from one more than the number of workspaces whose name is free.
pub open spec fn is_next_workspace_name(v: MuxView, name: Seq<char>) -> bool {
    exists|n: nat|
        n >= v.workspaces.dom().len() + 1 && name == workspace_label(n) && !v.has_workspace_named(
            workspace_label(n),
        ) && forall|k: nat|
            v.workspaces.dom().len() + 1 <= k < n ==> v.has_workspace_named(
                #[trigger] workspace_label(k),
            )
}

proof fn lemma_label_injective(a: nat, b: nat)
    requires
        workspace_label(a) == workspace_label(b),
    ensures
        a == b,
{
    let p = "Workspace "@;
    assert(workspace_label(a).subrange(p.len() as int, workspace_label(a).len() as int) =~= decimal(
        a,
    ));
    assert(workspace_label(b).subrange(p.len() as int, workspace_label(b).len() as int) =~= decimal(
        b,
    ));
    lemma_decimal_injective(a, b);
}

/// Moving past a taken default name leaves fewer candidates that could clash.
proof fn lemma_labelled_shrinks(v: MuxView, from: nat)
    requires
        v.workspaces.dom().finite(),
        v.has_workspace_named(workspace_label(from)),
    ensures
        labelled_from(v, from + 1).len() < labelled_from(v, from).len(),
        labelled_from(v, from).finite(),
{
    let w0 = choose|w: u64|
        #[trigger] v.workspaces.contains_key(w) && v.workspaces[w].name == workspace_label(from);
    let a = labelled_from(v, from);
    let b = labelled_from(v, from + 1);
    assert(a.contains(w0)) by {
        assert(workspace_label(from) == v.workspaces[w0].name);
    }
    assert(b.subset_of(a.remove(w0))) by {
        assert forall|w: u64| b.contains(w) implies a.remove(w0).contains(w) by {
            let k = choose|k: nat| k >= from + 1 && #[trigger] workspace_label(k) == v.workspaces[w].name;
            if w == w0 {
                lemma_label_injective(k, from);
            }
        }
    }
    vstd::set_lib::lemma_len_subset(a, v.workspaces.dom());
    vstd::set_lib::lemma_len_subset(b, a.remove(w0));
}

/// Picks the default name for a new workspace.
pub fn next_workspace_name(mux: &Mux) -> (r: String)
    requires
        mux.wf(),
    ensures
        is_next_workspace_name(mux@, r@),
{
    let workspaces = mux.workspaces();
    let ghost v = mux@;
    proof {
        mux.lemma_workspace_ids();
        vstd::set_lib::lemma_len_subset(labelled_from(v, (workspaces.len() + 1) as nat), v.workspaces.dom());
    }
    let count = workspaces.len();
    assert(count == v.workspaces.dom().len());
    let mut suffix: u128 = count as u128 + 1;
    loop
        invariant
            mux.wf(),
            v == mux@,
            count == v.workspaces.dom().len(),
            v.workspaces.dom().finite(),
            count + 1 <= suffix,
            suffix - (count + 1) + labelled_from(v, suffix as nat).len() <= count,
            forall|k: nat| count + 1 <= k < suffix ==> v.has_workspace_named(
                #[trigger] workspace_label(k),
            ),
        decreases labelled_from(v, suffix as nat).len(),
    {
        let mut candidate = String::new();
        push_str(&mut candidate, "Workspace ");
        push_decimal(&mut candidate, suffix);
        proof {
            assert(candidate@ =~= workspace_label(suffix as nat));
        }
        match mux.workspace_named(&candidate) {
            None => {
                return candidate;
            },
            Some(_) => {},
        }
        proof {
            lemma_labelled_shrinks(v, suffix as nat);
        }
        suffix = suffix + 1;
    }
}

/// The command of an action that needs nothing but the position it was
/// requested for.
pub open spec fn contextual_command(action: NativeAction, context: ActionContext) -> NativeCommand {
    let pane = context.pane;
    match action {
        NativeAction::ClosePane => NativeCommand::Mux(Command::ClosePane(pane)),
        NativeAction::CloseTab => NativeCommand::Mux(Command::CloseTab(context.tab)),
        NativeAction::ReloadConfig => NativeCommand::Config(ConfigCommand::Reload),
        NativeAction::Search => NativeCommand::Ui(UiCommand::OpenSearch { pane }),
        NativeAction::MaximizeWindow => NativeCommand::Window(WindowCommand::Maximize),
        NativeAction::ToggleMaximize => NativeCommand::Window(WindowCommand::ToggleMaximize),
        NativeAction::MinimizeWindow => NativeCommand::Window(WindowCommand::Minimize),
        NativeAction::ToggleFullscreen => NativeCommand::Window(WindowCommand::ToggleFullscreen),
        NativeAction::NextPrompt => spec_navigation(pane, NavigationKind::Prompt, false),
        NativeAction::PreviousPrompt => spec_navigation(pane, NavigationKind::Prompt, true),
        NativeAction::NextMark => spec_navigation(pane, NavigationKind::Mark, false),
        NativeAction::PreviousMark => spec_navigation(pane, NavigationKind::Mark, true),
        NativeAction::SelectNextCommandOutput => spec_navigation(
            pane,
            NavigationKind::CommandOutput,
            false,
        ),
        NativeAction::SelectPreviousCommandOutput => spec_navigation(
            pane,
            NavigationKind::CommandOutput,
            true,
        ),
        NativeAction::SelectLastCommandOutput => NativeCommand::Ui(
            UiCommand::SelectLastCommandOutput { pane },
        ),
        NativeAction::CopySelection => NativeCommand::Clipboard(
            ClipboardCommand::CopySelection { pane },
        ),
        NativeAction::PasteClipboard => NativeCommand::Clipboard(ClipboardCommand::Paste { pane }),
        NativeAction::StartVisualMode => NativeCommand::Ui(UiCommand::StartVisualMode { pane }),
        NativeAction::ToggleVisualMode => NativeCommand::Ui(UiCommand::ToggleVisualMode { pane }),
        NativeAction::StartVisualSelection => NativeCommand::Ui(
            UiCommand::StartVisualSelection { pane },
        ),
        NativeAction::SelectVisualSelection => NativeCommand::Ui(
            UiCommand::SelectVisualSelection { pane },
        ),
        NativeAction::EndVisualSelection => NativeCommand::Ui(
            UiCommand::EndVisualSelection { pane },
        ),
        NativeAction::MoveVisualSelection(motion) => NativeCommand::Ui(
            UiCommand::MoveVisualSelection { pane, motion },
        ),
        NativeAction::YankSelection => NativeCommand::Clipboard(
            ClipboardCommand::YankSelection { pane },
        ),
        NativeAction::UserCommand(name) => NativeCommand::Script(
            ScriptCommand::InvokeUserCommand { name, pane },
        ),
        NativeAction::Split(direction) => NativeCommand::Mux(Command::Split { pane, direction }),
        NativeAction::ToggleZoom => NativeCommand::Mux(Command::ToggleZoom),
        _ => NativeCommand::Mux(Command::NewTab),
    }
}

/// Activating the tab that a step found.
pub open spec fn tab_activation(s: Result<TabId, Seq<char>>) -> Result<
    Option<NativeCommand>,
    Seq<char>,
> {
    match s {
        Ok(t) => Ok(Some(NativeCommand::Mux(Command::ActivateTab(t)))),
        Err(m) => Err(m),
    }
}

/// Activating the workspace that a step found.
pub open spec fn workspace_activation(s: Result<WorkspaceId, Seq<char>>) -> Result<
    Option<NativeCommand>,
    Seq<char>,
> {
    match s {
        Ok(w) => Ok(Some(NativeCommand::Mux(Command::ActivateWorkspace(w)))),
        Err(m) => Err(m),
    }
}

/// What resolving `action` at `context` gives, where `neighbor` is the pane
/// next to the context's pane in the action's direction, if any.
pub open spec fn resolution_ok(
    r: Result<Option<NativeCommand>, String>,
    action: NativeAction,
    context: ActionContext,
    mux: Mux,
    neighbor: Option<PaneId>,
) -> bool {
    match action {
        NativeAction::NewTab => r == Ok::<Option<NativeCommand>, String>(
            Some(NativeCommand::Mux(Command::NewTab)),
        ),
        NativeAction::NewWorkspace => r matches Ok(Some(NativeCommand::Mux(Command::SwitchWorkspace(name))))
            && is_next_workspace_name(mux@, name@),
        NativeAction::NextTab => agrees(
            r,
            tab_activation(tab_step(mux@, context.window, context.tab, false)),
        ),
        NativeAction::PreviousTab => agrees(
            r,
            tab_activation(tab_step(mux@, context.window, context.tab, true)),
        ),
        NativeAction::NextWorkspace => agrees(
            r,
            workspace_activation(workspace_step(mux.workspace_ids(), context.workspace, false)),
        ),
        NativeAction::PreviousWorkspace => agrees(
            r,
            workspace_activation(workspace_step(mux.workspace_ids(), context.workspace, true)),
        ),
        NativeAction::ActivatePane(_) => r == Ok::<Option<NativeCommand>, String>(
            match neighbor {
                Some(p) => Some(NativeCommand::Mux(Command::ActivatePane(p))),
                None => None,
            },
        ),
        _ => r == Ok::<Option<NativeCommand>, String>(Some(contextual_command(action, context))),
    }
}

/// Resolves a user action into the command of a concrete domain. `neighbor`
/// is the pane next to the context's pane in the direction of a pane
/// activation, as the layout found it.
pub fn resolve_native_action(
    action: NativeAction,
    context: ActionContext,
    mux: &Mux,
    neighbor: Option<PaneId>,
) -> (r: Result<Option<NativeCommand>, String>)
    requires
        mux.wf(),
    ensures
        resolution_ok(r, action, context, *mux, neighbor),
{
    let pane = context.pane;
    let command = match action {
        NativeAction::NewTab => NativeCommand::Mux(Command::NewTab),
        NativeAction::ClosePane => NativeCommand::Mux(Command::ClosePane(pane)),
        NativeAction::CloseTab => NativeCommand::Mux(Command::CloseTab(context.tab)),
        NativeAction::NewWorkspace => NativeCommand::Mux(
            Command::SwitchWorkspace(next_workspace_name(mux)),
        ),
        NativeAction::ReloadConfig => NativeCommand::Config(ConfigCommand::Reload),
        NativeAction::Search => NativeCommand::Ui(UiCommand::OpenSearch { pane }),
        NativeAction::MaximizeWindow => NativeCommand::Window(WindowCommand::Maximize),
        NativeAction::ToggleMaximize => NativeCommand::Window(WindowCommand::ToggleMaximize),
        NativeAction::MinimizeWindow => NativeCommand::Window(WindowCommand::Minimize),
        NativeAction::ToggleFullscreen => NativeCommand::Window(WindowCommand::ToggleFullscreen),
        NativeAction::NextTab => match adjacent_tab(mux, context.window, context.tab, false) {
            Ok(tab) => NativeCommand::Mux(Command::ActivateTab(tab)),
            Err(e) => return Err(e),
        },
        NativeAction::PreviousTab => match adjacent_tab(mux, context.window, context.tab, true) {
            Ok(tab) => NativeCommand::Mux(Command::ActivateTab(tab)),
            Err(e) => return Err(e),
        },
        NativeAction::NextWorkspace => match adjacent_workspace(mux, context.workspace, false) {
            Ok(workspace) => NativeCommand::Mux(Command::ActivateWorkspace(workspace)),
            Err(e) => return Err(e),
        },
        NativeAction::PreviousWorkspace => match adjacent_workspace(mux, context.workspace, true) {
            Ok(workspace) => NativeCommand::Mux(Command::ActivateWorkspace(workspace)),
            Err(e) => return Err(e),
        },
        NativeAction::NextPrompt => navigation_command(pane, NavigationKind::Prompt, false),
        NativeAction::PreviousPrompt => navigation_command(pane, NavigationKind::Prompt, true),
        NativeAction::NextMark => navigation_command(pane, NavigationKind::Mark, false),
        NativeAction::PreviousMark => navigation_command(pane, NavigationKind::Mark, true),
        NativeAction::SelectNextCommandOutput => navigation_command(
            pane,
            NavigationKind::CommandOutput,
            false,
        ),
        NativeAction::SelectPreviousCommandOutput => navigation_command(
            pane,
            NavigationKind::CommandOutput,
            true,
        ),
        NativeAction::SelectLastCommandOutput => NativeCommand::Ui(
            UiCommand::SelectLastCommandOutput { pane },
        ),
        NativeAction::CopySelection => NativeCommand::Clipboard(
            ClipboardCommand::CopySelection { pane },
        ),
        NativeAction::PasteClipboard => NativeCommand::Clipboard(ClipboardCommand::Paste { pane }),
        NativeAction::StartVisualMode => NativeCommand::Ui(UiCommand::StartVisualMode { pane }),
        NativeAction::ToggleVisualMode => NativeCommand::Ui(UiCommand::ToggleVisualMode { pane }),
        NativeAction::StartVisualSelection => NativeCommand::Ui(
            UiCommand::StartVisualSelection { pane },
        ),
        NativeAction::SelectVisualSelection => NativeCommand::Ui(
            UiCommand::SelectVisualSelection { pane },
        ),
        NativeAction::EndVisualSelection => NativeCommand::Ui(
            UiCommand::EndVisualSelection { pane },
        ),
        NativeAction::MoveVisualSelection(motion) => NativeCommand::Ui(
            UiCommand::MoveVisualSelection { pane, motion },
        ),
        NativeAction::YankSelection => NativeCommand::Clipboard(
            ClipboardCommand::YankSelection { pane },
        ),
        NativeAction::UserCommand(name) => NativeCommand::Script(
            ScriptCommand::InvokeUserCommand { name, pane },
        ),
        NativeAction::Split(direction) => NativeCommand::Mux(Command::Split { pane, direction }),
        NativeAction::ActivatePane(_) => match neighbor {
            Some(p) => NativeCommand::Mux(Command::ActivatePane(p)),
            None => return Ok(None),
        },
        NativeAction::ToggleZoom => NativeCommand::Mux(Command::ToggleZoom),
    };
    Ok(Some(command))
}

/// The activation to run before an action's command, and that command.
#[derive(Clone, Debug, PartialEq)]
pub struct ActionResolution {
    pub activation: Vec<Command>,
    pub command: Option<NativeCommand>,
}

/// The message of a script action whose position no longer exists.
pub open spec fn stale_context() -> Seq<char> {
    "callback action target hierarchy is no longer valid"@
}

/// What resolving an action command from `origin` gives: the IPC server
/// is refused; a script's action on a position that no longer exists is
/// refused unless the action is global; otherwise the action is resolved,
/// a script's non-global action after re-activating its position.
pub open spec fn action_resolution_ok(
    r: Result<ActionResolution, String>,
    command: ActionCommand,
    origin: CommandOrigin,
    mux: Mux,
    neighbor: Option<PaneId>,
) -> bool {
    let ActionCommand::Invoke { action, context } = command;
    if origin == CommandOrigin::Ipc {
        r matches Err(m) && m@ == ipc_refusal()
    } else if origin == CommandOrigin::Script && !spec_action_is_global(action) && !context_is_valid(
        mux,
        context,
    ) {
        r matches Err(m) && m@ == stale_context()
    } else {
        exists|resolved: Result<Option<NativeCommand>, String>|
            resolution_ok(resolved, action, context, mux, neighbor) && match resolved {
                Ok(c) => r matches Ok(res) && res.command == c && res.activation@ == (
                if origin == CommandOrigin::Script && !spec_action_is_global(action) {
                    activation_of(context)
                } else {
                    Seq::<Command>::empty()
                }),
                Err(e) => r == Err::<ActionResolution, String>(e),
            }
    }
}

/// Resolves a user-operation-level action into a concrete domain command.
/// The IPC server may not send actions. A script's action acts on the
/// position it was requested for: that position must still exist (unless
/// the action is global), and is re-activated first.
pub fn resolve_action_command(
    command: ActionCommand,
    origin: CommandOrigin,
    mux: &Mux,
    neighbor: Option<PaneId>,
) -> (r: Result<ActionResolution, String>)
    requires
        mux.wf(),
    ensures
        action_resolution_ok(r, command, origin, *mux, neighbor),
{
    if origin == CommandOrigin::Ipc {
        return Err("native command domain is not exposed over IPC".to_owned());
    }
    let ActionCommand::Invoke { action, context } = command;
    if origin == CommandOrigin::Script && !action_is_global(&action) && !action_context_is_valid(
        mux,
        context,
    ) {
        return Err("callback action target hierarchy is no longer valid".to_owned());
    }
    let activation = if origin == CommandOrigin::Script {
        context_activation_commands(&action, context)
    } else {
        Vec::new()
    };
    let resolved = resolve_native_action(action, context, mux, neighbor);
    match resolved {
        Ok(command) => Ok(ActionResolution { activation, command }),
        Err(e) => Err(e),
    }
}

/// What a key press resolves to.
#[derive(Clone, Debug, PartialEq)]
pub enum KeybindingDispatch {
    Native(NativeAction),
    Ruby(String),
    Unassigned,
}

/// Actions that only make sense while a visual selection is being made.
pub open spec fn spec_visual_only(action: NativeAction) -> bool {
    ||| action is EndVisualSelection
    ||| action is SelectVisualSelection
    ||| action is MoveVisualSelection
    ||| action is YankSelection
}

/// The action bound to `key`: the first binding of that name.
pub open spec fn action_for(actions: Seq<(String, NativeAction)>, key: Seq<char>) -> Option<
    NativeAction,
>
    decreases actions.len(),
{
    if actions.len() == 0 {
        None
    } else if actions[0].0@ == key {
        Some(actions[0].1)
    } else {
        action_for(actions.drop_first(), key)
    }
}

/// Whether `key` has a script binding.
pub open spec fn script_bound(bindings: Seq<String>, key: Seq<char>) -> bool {
    exists|i: int| 0 <= i < bindings.len() && #[trigger] bindings[i]@ == key
}

/// Tries the candidate names of a key press in order: a native action bound
/// to a name wins, unless it only works in visual mode and visual mode is
/// off, in which case the name is passed over; otherwise a script binding
/// of the name wins.
pub open spec fn keybinding_outcome(
    actions: Seq<(String, NativeAction)>,
    bindings: Seq<String>,
    keys: Seq<String>,
    visual_mode: bool,
) -> KeybindingDispatch
    decreases keys.len(),
{
    if keys.len() == 0 {
        KeybindingDispatch::Unassigned
    } else {
        let key = keys[0];
        match action_for(actions, key@) {
            Some(action) => if !visual_mode && spec_visual_only(action) {
                keybinding_outcome(actions, bindings, keys.drop_first(), visual_mode)
            } else {
                KeybindingDispatch::Native(action)
            },
            None => if script_bound(bindings, key@) {
                KeybindingDispatch::Ruby(key)
            } else {
                keybinding_outcome(actions, bindings, keys.drop_first(), visual_mode)
            },
        }
    }
}

fn find_action(actions: &Vec<(String, NativeAction)>, key: &String) -> (r: Option<NativeAction>)
    ensures
        r == action_for(actions@, key@),
{
    let mut i: usize = 0;
    proof {
        assert(actions@.skip(0) =~= actions@);
    }
    while i < actions.len()
        invariant
            i <= actions@.len(),
            action_for(actions@, key@) == action_for(actions@.skip(i as int), key@),
        decreases actions@.len() - i,
    {
        proof {
            let rest = actions@.skip(i as int);
            assert(rest[0] == actions@[i as int]);
            assert(rest.drop_first() =~= actions@.skip(i + 1));
        }
        if actions[i].0 == *key {
            return Some(actions[i].1.clone());
        }
        i = i + 1;
    }
    proof {
        assert(actions@.skip(i as int) =~= Seq::<(String, NativeAction)>::empty());
    }
    None
}

fn has_binding(bindings: &Vec<String>, key: &String) -> (r: bool)
    ensures
        r == script_bound(bindings@, key@),
{
    let mut i: usize = 0;
    while i < bindings.len()
        invariant
            i <= bindings@.len(),
            forall|j: int| 0 <= j < i ==> bindings@[j]@ != key@,
        decreases bindings@.len() - i,
    {
        if bindings[i] == *key {
            return true;
        }
        i = i + 1;
    }
    false
}

/// Resolves the candidate names of a key press against the native actions
/// and script bindings of the configuration.
pub fn resolve_keybinding(
    actions: &Vec<(String, NativeAction)>,
    bindings: &Vec<String>,
    keys: Vec<String>,
    visual_mode: bool,
) -> (r: KeybindingDispatch)
    ensures
        r == keybinding_outcome(actions@, bindings@, keys@, visual_mode),
{
    let mut i: usize = 0;
    proof {
        assert(keys@.skip(0) =~= keys@);
    }
    while i < keys.len()
        invariant
            i <= keys@.len(),
            keybinding_outcome(actions@, bindings@, keys@, visual_mode) == keybinding_outcome(
                actions@,
                bindings@,
                keys@.skip(i as int),
                visual_mode,
            ),
        decreases keys@.len() - i,
    {
        let key = &keys[i];
        proof {
            let rest = keys@.skip(i as int);
            assert(rest[0] == keys@[i as int]);
            assert(rest.drop_first() =~= keys@.skip(i + 1));
        }
        match find_action(actions, key) {
            Some(action) => {
                let visual_only = match action {
                    NativeAction::EndVisualSelection | NativeAction::SelectVisualSelection
                    | NativeAction::MoveVisualSelection(_) | NativeAction::YankSelection => true,
                    _ => false,
                };
                if visual_mode || !visual_only {
                    return KeybindingDispatch::Native(action);
                }
            },
            None => {
                if has_binding(bindings, key) {
                    return KeybindingDispatch::Ruby(keys[i].clone());
                }
            },
        }
        i = i + 1;
    }
    proof {
        assert(keys@.skip(i as int) =~= Seq::<String>::empty());
    }
    KeybindingDispatch::Unassigned
}

/// The script event announcing a multiplexer event; queued text has none.
pub open spec fn script_event_of(event: Event) -> Option<RubyEvent> {
    let blank = |kind: ScriptEventKind|
        RubyEvent {
            kind,
            workspace: None,
            window: None,
            tab: None,
            pane: None,
            title: None,
            cwd: None,
            exit_status: None,
        };
    match event {
        Event::WorkspaceChanged { workspace } => Some(
            RubyEvent { workspace: Some(workspace), ..blank(ScriptEventKind::WorkspaceChanged) },
        ),
        Event::WindowCreated { window } => Some(
            RubyEvent { window: Some(window), ..blank(ScriptEventKind::WindowCreated) },
        ),
        Event::WindowClosed { window } => Some(
            RubyEvent { window: Some(window), ..blank(ScriptEventKind::WindowClosed) },
        ),
        Event::TabCreated { tab } => Some(
            RubyEvent { tab: Some(tab), ..blank(ScriptEventKind::TabCreated) },
        ),
        Event::TabClosed { tab } => Some(
            RubyEvent { tab: Some(tab), ..blank(ScriptEventKind::TabClosed) },
        ),
        Event::PaneCreated { pane } => Some(
            RubyEvent { pane: Some(pane), ..blank(ScriptEventKind::PaneCreated) },
        ),
        Event::PaneClosed { pane } => Some(
            RubyEvent { pane: Some(pane), ..blank(ScriptEventKind::PaneClosed) },
        ),
        Event::PaneFocused { pane } => Some(
            RubyEvent { pane: Some(pane), ..blank(ScriptEventKind::PaneFocused) },
        ),
        Event::TextQueued { .. } => None,
    }
}

/// The script events announcing `events`, in order.
pub open spec fn script_events_of(events: Seq<Event>) -> Seq<RubyEvent>
    decreases events.len(),
{
    if events.len() == 0 {
        Seq::empty()
    } else {
        let rest = script_events_of(events.drop_last());
        match script_event_of(events.last()) {
            Some(e) => rest.push(e),
            None => rest,
        }
    }
}

/// The script event that announces a multiplexer event, if any.
pub fn ruby_event_from_mux_event(event: Event) -> (r: Option<RubyEvent>)
    ensures
        r == script_event_of(event),
{
    match event {
        Event::WorkspaceChanged { workspace } => {
            let mut e = RubyEvent::new(ScriptEventKind::WorkspaceChanged);
            e.workspace = Some(workspace);
            Some(e)
        },
        Event::WindowCreated { window } => {
            let mut e = RubyEvent::new(ScriptEventKind::WindowCreated);
            e.window = Some(window);
            Some(e)
        },
        Event::WindowClosed { window } => {
            let mut e = RubyEvent::new(ScriptEventKind::WindowClosed);
            e.window = Some(window);
            Some(e)
        },
        Event::TabCreated { tab } => {
            let mut e = RubyEvent::new(ScriptEventKind::TabCreated);
            e.tab = Some(tab);
            Some(e)
        },
        Event::TabClosed { tab } => {
            let mut e = RubyEvent::new(ScriptEventKind::TabClosed);
            e.tab = Some(tab);
            Some(e)
        },
        Event::PaneCreated { pane } => {
            let mut e = RubyEvent::new(ScriptEventKind::PaneCreated);
            e.pane = Some(pane);
            Some(e)
        },
        Event::PaneClosed { pane } => {
            let mut e = RubyEvent::new(ScriptEventKind::PaneClosed);
            e.pane = Some(pane);
            Some(e)
        },
        Event::PaneFocused { pane } => {
            let mut e = RubyEvent::new(ScriptEventKind::PaneFocused);
            e.pane = Some(pane);
            Some(e)
        },
        Event::TextQueued { .. } => None,
    }
}

/// What running `command` through the coordinator answers and leaves behind:
/// the multiplexer's own answer and state, with its events moved into the
/// script event queue; on an error nothing changes.
pub open spec fn coordinated(
    before: MuxView,
    events_before: Seq<RubyEvent>,
    command: Command,
    r: Result<CommandResult, String>,
    after: MuxView,
    events_after: Seq<RubyEvent>,
) -> bool {
    exists|mr: Result<CommandResult, MuxError>, m: MuxView|
        #[trigger] before.dispatch_result(command, mr, m) && match mr {
            Ok(c) => r == Ok::<CommandResult, String>(c) && after == (MuxView {
                events: Seq::empty(),
                ..m
            }) && events_after == events_before + script_events_of(m.events),
            Err(e) => r matches Err(s) && s@ == e.spec_message() && after == m && events_after
                == events_before,
        }
}

/// Runs a multiplexer command for a script and queues the script events it causes.
pub fn dispatch_coordinator_command(
    mux: &mut Mux,
    runtime_events: &mut VecDeque<RubyEvent>,
    command: Command,
) -> (r: Result<CommandResult, String>)
    requires
        old(mux).wf(),
        old(mux)@.has_room(4),
    ensures
        final(mux).wf(),
        coordinated(
            old(mux)@,
            old(runtime_events)@,
            command,
            r,
            final(mux)@,
            final(runtime_events)@,
        ),
{
    let ghost before = mux@;
    let result = match mux.dispatch(command) {
        Ok(result) => result,
        Err(error) => {
            let message = error.message();
            proof {
                assert(before.dispatch_result(command, Err(error), mux@));
            }
            return Err(message);
        },
    };
    let ghost m = mux@;
    let events = mux.drain_events();
    let ghost base = runtime_events@;
    let mut i: usize = 0;
    proof {
        assert(events@.take(0) =~= Seq::<Event>::empty());
        assert(runtime_events@ =~= base + script_events_of(events@.take(0)));
    }
    while i < events.len()
        invariant
            i <= events@.len(),
            runtime_events@ == base + script_events_of(events@.take(i as int)),
        decreases events@.len() - i,
    {
        let converted = ruby_event_from_mux_event(events[i]);
        proof {
            let t = events@.take(i + 1);
            assert(t.drop_last() =~= events@.take(i as int));
            assert(t.last() == events@[i as int]);
        }
        match converted {
            Some(e) => runtime_events.push_back(e),
            None => {},
        }
        i = i + 1;
        proof {
            assert(runtime_events@ =~= base + script_events_of(events@.take(i as int)));
        }
    }
    proof {
        assert(events@.take(i as int) =~= events@);
        assert(before.dispatch_result(command, Ok(result), m));
    }
    Ok(result)
}

/// Where a new pane is to be created.
#[derive(Clone, Copy, Debug, PartialEq, Eq, Structural)]
pub enum PaneCreation {
    NewWindow(WorkspaceId),
    NewTab(WindowId),
    Split { pane: PaneId, direction: SplitDirection },
}

/// The multiplexer command that creates the pane.
pub open spec fn creation_command(creation: PaneCreation) -> Command {
    match creation {
        PaneCreation::NewWindow(workspace) => Command::CreateWindow(workspace),
        PaneCreation::NewTab(window) => Command::NewTabIn(window),
        PaneCreation::Split { pane, direction } => Command::Split { pane, direction },
    }
}

/// Creates a pane in a new window, in a new tab or by a split, through the
/// coordinator, and returns it so that its process can be launched.
pub fn dispatch_pane_creation(
    mux: &mut Mux,
    runtime_events: &mut VecDeque<RubyEvent>,
    creation: PaneCreation,
) -> (r: Result<PaneId, String>)
    requires
        old(mux).wf(),
        old(mux)@.has_room(4),
    ensures
        final(mux).wf(),
        exists|c: Result<CommandResult, String>|
            coordinated(
                old(mux)@,
                old(runtime_events)@,
                creation_command(creation),
                c,
                final(mux)@,
                final(runtime_events)@,
            ) && match c {
                Ok(_) => r == Ok::<PaneId, String>(
                    match creation {
                        PaneCreation::NewWindow(_) => PaneId((old(mux)@.next_id + 2) as u64),
                        PaneCreation::NewTab(_) => PaneId((old(mux)@.next_id + 1) as u64),
                        PaneCreation::Split { .. } => PaneId(old(mux)@.next_id),
                    },
                ),
                Err(e) => r == Err::<PaneId, String>(e),
            },
{
    let ghost v = mux@;
    let command = match creation {
        PaneCreation::NewWindow(workspace) => Command::CreateWindow(workspace),
        PaneCreation::NewTab(window) => Command::NewTabIn(window),
        PaneCreation::Split { pane, direction } => Command::Split { pane, direction },
    };
    let result = dispatch_coordinator_command(mux, runtime_events, command);
    let ghost c = result;
    match result {
        Ok(CommandResult::Pane(pane)) => Ok(pane),
        Ok(CommandResult::Window(window)) => {
            proof {
                let t = (v.next_id + 1) as u64;
                let p = (v.next_id + 2) as u64;
                assert(mux@.windows[window.0].tabs == seq![TabId(t)]);
                reveal_with_fuel(crate::tree::PaneNode::spec_panes, 2);
                assert(mux@.tabs[t].root.spec_panes() =~= seq![PaneId(p)]);
            }
            let tab = mux.tabs(window).unwrap()[0];
            let panes = mux.tab_panes(tab).unwrap();
            Ok(panes[0])
        },
        Ok(CommandResult::Tab(tab)) => {
            proof {
                let p = (v.next_id + 1) as u64;
                reveal_with_fuel(crate::tree::PaneNode::spec_panes, 2);
                assert(mux@.tabs[tab.0].root.spec_panes() =~= seq![PaneId(p)]);
            }
            let panes = mux.tab_panes(tab).unwrap();
            Ok(panes[0])
        },
        Ok(_) => {
            proof {
                assert(false);
            }
            Err(String::new())
        },
        Err(e) => Err(e),
    }
}

} // verus!
