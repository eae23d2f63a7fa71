//! Properties of how key presses, command-line words, script actions and
//! multiplexer events turn into commands and script events, stated over
//! the contracts of the functions that do it.
use vstd::prelude::*;
use crate::api::{
    ActionCommand, ActionContext, Command, Event, NativeAction, NativeCommand, PaneId,
    ScriptEventKind, SplitDirection, WorkspaceId,
};
use crate::cli::direction_named;
use crate::dispatch::{
    action_resolution_ok, context_is_valid, resolution_ok, script_event_of, CommandOrigin,
};
use crate::keys::{named_key_label, NamedKey};
use crate::mux::Mux;
use crate::mux_model::lemma_index_in;

verus! {

/// Next and previous tab step through the tabs of the context's window in
/// their order, wrapping around: from the tab at position `i` of `n`, the
/// next tab is the one at `(i + 1) mod n` and the previous one the one at
/// `(i + n - 1) mod n`. Next and previous workspace do the same over the
/// workspaces in ascending id order.
pub proof fn law_tabs_and_workspaces_cycle_in_order(
    mux: Mux,
    action: NativeAction,
    context: ActionContext,
    neighbor: Option<PaneId>,
    r: Result<Option<NativeCommand>, String>,
    i: int,
)
    requires
        mux.wf(),
        resolution_ok(r, action, context, mux, neighbor),
    ensures
        forall|a: int, b: int|
            0 <= a < b < mux.workspace_ids().len() ==> mux.workspace_ids()[a]
                < mux.workspace_ids()[b],
        ({
            let tabs = mux@.windows[context.window.0].tabs;
            let n = tabs.len() as int;
            (action is NextTab || action is PreviousTab) && mux@.windows.contains_key(
                context.window.0,
            ) && 0 <= i < n && tabs[i] == context.tab ==> r == Ok::<Option<NativeCommand>, String>(
                Some(
                    NativeCommand::Mux(
                        Command::ActivateTab(
                            tabs[if action is PreviousTab {
                                (i + n - 1) % n
                            } else {
                                (i + 1) % n
                            }],
                        ),
                    ),
                ),
            )
        }),
        ({
            let ids = mux.workspace_ids();
            let n = ids.len() as int;
            (action is NextWorkspace || action is PreviousWorkspace) && 0 <= i < n && ids[i]
                == context.workspace.0 ==> r == Ok::<Option<NativeCommand>, String>(
                Some(
                    NativeCommand::Mux(
                        Command::ActivateWorkspace(
                            WorkspaceId(
                                ids[if action is PreviousWorkspace {
                                    (i + n - 1) % n
                                } else {
                                    (i + 1) % n
                                }],
                            ),
                        ),
                    ),
                ),
            )
        }),
{
    mux.lemma_workspace_ids();
    let ids = mux.workspace_ids();
    if (action is NextTab || action is PreviousTab) && mux@.windows.contains_key(context.window.0) {
        let tabs = mux@.windows[context.window.0].tabs;
        if 0 <= i < tabs.len() && tabs[i] == context.tab {
            mux.lemma_window_tabs_distinct(context.window.0);
            lemma_index_in(tabs, i);
            assert(tabs.contains(context.tab));
        }
    }
    if (action is NextWorkspace || action is PreviousWorkspace) && 0 <= i < ids.len() && ids[i]
        == context.workspace.0 {
        assert(ids.no_duplicates()) by {
            assert forall|a: int, b: int| 0 <= a < ids.len() && 0 <= b < ids.len() && a != b implies ids[a]
                != ids[b] by {
                if a < b {
                    assert(ids[a] < ids[b]);
                } else {
                    assert(ids[b] < ids[a]);
                }
            }
        }
        lemma_index_in(ids, i);
        assert(ids.contains(context.workspace.0));
    }
}

/// The binding name of a named key is the key's own name: the arrows are
/// `LEFT`, `RIGHT`, `UP` and `DOWN`, the page keys `PAGEUP` and
/// `PAGEDOWN`, the function keys `F1` to `F12`, and the others their
/// names in capitals; no two named keys share a name, so a binding fires
/// on the one key it names.
pub proof fn law_named_keys_have_their_own_names(a: NamedKey, b: NamedKey)
    ensures
        named_key_label(NamedKey::ArrowLeft) == "LEFT"@,
        named_key_label(NamedKey::ArrowRight) == "RIGHT"@,
        named_key_label(NamedKey::ArrowUp) == "UP"@,
        named_key_label(NamedKey::ArrowDown) == "DOWN"@,
        named_key_label(NamedKey::PageUp) == "PAGEUP"@,
        named_key_label(NamedKey::PageDown) == "PAGEDOWN"@,
        named_key_label(NamedKey::Enter) == "ENTER"@,
        named_key_label(NamedKey::Backspace) == "BACKSPACE"@,
        named_key_label(NamedKey::Tab) == "TAB"@,
        named_key_label(NamedKey::Escape) == "ESCAPE"@,
        named_key_label(NamedKey::Space) == "SPACE"@,
        named_key_label(NamedKey::Home) == "HOME"@,
        named_key_label(NamedKey::End) == "END"@,
        named_key_label(NamedKey::Insert) == "INSERT"@,
        named_key_label(NamedKey::Delete) == "DELETE"@,
        named_key_label(NamedKey::F1) == "F1"@,
        named_key_label(NamedKey::F2) == "F2"@,
        named_key_label(NamedKey::F3) == "F3"@,
        named_key_label(NamedKey::F4) == "F4"@,
        named_key_label(NamedKey::F5) == "F5"@,
        named_key_label(NamedKey::F6) == "F6"@,
        named_key_label(NamedKey::F7) == "F7"@,
        named_key_label(NamedKey::F8) == "F8"@,
        named_key_label(NamedKey::F9) == "F9"@,
        named_key_label(NamedKey::F10) == "F10"@,
        named_key_label(NamedKey::F11) == "F11"@,
        named_key_label(NamedKey::F12) == "F12"@,
        named_key_label(a) == named_key_label(b) ==> a == b,
{
    if named_key_label(a) == named_key_label(b) && a != b {
        reveal_strlit("ENTER");
        reveal_strlit("BACKSPACE");
        reveal_strlit("TAB");
        reveal_strlit("ESCAPE");
        reveal_strlit("SPACE");
        reveal_strlit("UP");
        reveal_strlit("DOWN");
        reveal_strlit("LEFT");
        reveal_strlit("RIGHT");
        reveal_strlit("HOME");
        reveal_strlit("END");
        reveal_strlit("PAGEUP");
        reveal_strlit("PAGEDOWN");
        reveal_strlit("INSERT");
        reveal_strlit("DELETE");
        reveal_strlit("F1");
        reveal_strlit("F2");
        reveal_strlit("F3");
        reveal_strlit("F4");
        reveal_strlit("F5");
        reveal_strlit("F6");
        reveal_strlit("F7");
        reveal_strlit("F8");
        reveal_strlit("F9");
        reveal_strlit("F10");
        reveal_strlit("F11");
        reveal_strlit("F12");
        let la = named_key_label(a);
        let lb = named_key_label(b);
        assert(la.len() == lb.len());
        assert(la[0] == lb[0]);
        if la.len() > 1 {
            assert(la[1] == lb[1]);
        }
        if la.len() > 2 {
            assert(la[2] == lb[2]);
        }
        if la.len() > 4 {
            assert(la[4] == lb[4]);
        }
    }
}

/// The word for a split direction on the command line.
pub open spec fn direction_word(direction: SplitDirection) -> Seq<char> {
    match direction {
        SplitDirection::Left => "left"@,
        SplitDirection::Right => "right"@,
        SplitDirection::Up => "up"@,
        SplitDirection::Down => "down"@,
    }
}

/// A direction word names the direction of the same name, and only the
/// four words name a direction: `left` is Left, `right` Right, `up` Up and
/// `down` Down.
pub proof fn law_direction_words_name_their_direction(word: Seq<char>, direction: SplitDirection)
    ensures
        direction_named(word) == Some(direction) <==> word == direction_word(direction),
{
    reveal_strlit("left");
    reveal_strlit("right");
    reveal_strlit("up");
    reveal_strlit("down");
    if word == direction_word(direction) {
        assert("left"@.len() != "right"@.len());
        assert("left"@[0] != "up"@[0] && "left"@[0] != "down"@[0]);
        assert("right"@[0] != "up"@[0] && "right"@[0] != "down"@[0]);
        assert("up"@.len() != "down"@.len());
    }
}

/// Whether a script may run `action` without its position being checked
/// and re-activated: reloading the configuration, the window's size and
/// full screen, and a new workspace.
pub open spec fn exempt_from_position(action: NativeAction) -> bool {
    ||| action is ReloadConfig
    ||| action is MaximizeWindow
    ||| action is ToggleMaximize
    ||| action is MinimizeWindow
    ||| action is ToggleFullscreen
    ||| action is NewWorkspace
}

/// A script's action acts at the position it was requested for: unless it
/// is one of the exempt actions, it is refused when that position no
/// longer exists, and otherwise the workspace, window, tab and pane of the
/// position are activated, in that order, before it runs. A new tab so
/// opens in the window the script named. The exempt actions activate
/// nothing.
pub proof fn law_script_actions_act_at_their_position(
    r: Result<crate::dispatch::ActionResolution, String>,
    action: NativeAction,
    context: ActionContext,
    mux: Mux,
    neighbor: Option<PaneId>,
)
    requires
        action_resolution_ok(
            r,
            ActionCommand::Invoke { action, context },
            CommandOrigin::Script,
            mux,
            neighbor,
        ),
    ensures
        !exempt_from_position(action) && !context_is_valid(mux, context) ==> (r matches Err(m)
            && m@ == "callback action target hierarchy is no longer valid"@),
        !exempt_from_position(action) ==> (r matches Ok(res) ==> res.activation@ == seq![
            Command::ActivateWorkspace(context.workspace),
            Command::ActivateWindow(context.window),
            Command::ActivateTab(context.tab),
            Command::ActivatePane(context.pane),
        ]),
        exempt_from_position(action) ==> (r matches Ok(res) ==> res.activation@.len() == 0),
        action is NewTab && context_is_valid(mux, context) ==> (r matches Ok(res) && res.command
            == Some(NativeCommand::Mux(Command::NewTab))),
{
}

/// An action bound to a key acts where the user is: nothing is
/// re-activated before it, and a new tab opens in the current window. The
/// IPC server may not run actions at all.
pub proof fn law_other_origins_activate_nothing(
    r: Result<crate::dispatch::ActionResolution, String>,
    action: NativeAction,
    context: ActionContext,
    mux: Mux,
    neighbor: Option<PaneId>,
    origin: CommandOrigin,
)
    requires
        action_resolution_ok(r, ActionCommand::Invoke { action, context }, origin, mux, neighbor),
        origin != CommandOrigin::Script,
    ensures
        origin == CommandOrigin::Ipc ==> r is Err,
        r matches Ok(res) ==> res.activation@.len() == 0,
        origin == CommandOrigin::Keybinding && action is NewTab ==> (r matches Ok(res)
            && res.command == Some(NativeCommand::Mux(Command::NewTab))),
{
}

/// The script event announcing a multiplexer event names the object the
/// event is about: the pane of a pane event, the tab of a tab event, the
/// window of a window event and the workspace of a workspace change, and
/// nothing else; queued text is not announced.
pub proof fn law_script_events_name_their_subject(event: Event)
    ensures
        match event {
            Event::PaneCreated { pane } => script_event_of(event) matches Some(e) && e.kind
                == ScriptEventKind::PaneCreated && e.pane == Some(pane) && e.tab is None
                && e.window is None && e.workspace is None,
            Event::PaneClosed { pane } => script_event_of(event) matches Some(e) && e.kind
                == ScriptEventKind::PaneClosed && e.pane == Some(pane) && e.tab is None
                && e.window is None && e.workspace is None,
            Event::PaneFocused { pane } => script_event_of(event) matches Some(e) && e.kind
                == ScriptEventKind::PaneFocused && e.pane == Some(pane) && e.tab is None
                && e.window is None && e.workspace is None,
            Event::TabCreated { tab } => script_event_of(event) matches Some(e) && e.kind
                == ScriptEventKind::TabCreated && e.tab == Some(tab) && e.pane is None
                && e.window is None && e.workspace is None,
            Event::TabClosed { tab } => script_event_of(event) matches Some(e) && e.kind
                == ScriptEventKind::TabClosed && e.tab == Some(tab) && e.pane is None
                && e.window is None && e.workspace is None,
            Event::WindowCreated { window } => script_event_of(event) matches Some(e) && e.kind
                == ScriptEventKind::WindowCreated && e.window == Some(window) && e.pane is None
                && e.tab is None && e.workspace is None,
            Event::WindowClosed { window } => script_event_of(event) matches Some(e) && e.kind
                == ScriptEventKind::WindowClosed && e.window == Some(window) && e.pane is None
                && e.tab is None && e.workspace is None,
            Event::WorkspaceChanged { workspace } => script_event_of(event) matches Some(e)
                && e.kind == ScriptEventKind::WorkspaceChanged && e.workspace == Some(workspace)
                && e.pane is None && e.tab is None && e.window is None,
            Event::TextQueued { .. } => script_event_of(event) is None,
        },
{
}

} // verus!
