use std::collections::VecDeque;

use toyoterm::api::{
    ActionCommand, ActionContext, ClipboardCommand, Command, CommandResult, ConfigCommand,
    NativeAction, NativeCommand, PaneCommand, PaneId, PaneLaunchSpec, PaneSearchDirection,
    ScriptCommand, ScriptEventKind, SelectionMotion, SplitDirection, TabId, UiCommand, WindowCommand,
    WindowId, WorkspaceId,
};
use toyoterm::dispatch::{
    action_context_is_valid, apply_config_command, context_activation_commands,
    dispatch_coordinator_command, dispatch_pane_creation, resolve_action_command,
    resolve_keybinding, route_domain_command, validate_command_origin, ActionResolution,
    CommandOrigin, ControlEffects, DomainCommand, KeybindingDispatch, PaneCreation,
};
use toyoterm::mux::Mux;
use toyoterm::script_queue::RubyEvent;

fn action_context() -> ActionContext {
    ActionContext {
        workspace: WorkspaceId(1),
        window: WindowId(2),
        tab: TabId(3),
        pane: PaneId(4),
    }
}

fn launch_spec() -> PaneLaunchSpec {
    PaneLaunchSpec {
        program: Some("shell".into()),
        args: vec!["--login".into()],
        cwd: None,
        environment: Vec::new(),
    }
}

fn event_names(events: &VecDeque<RubyEvent>) -> Vec<&'static str> {
    events.iter().map(|event| event.kind.as_str()).collect()
}

#[test]
fn command_origin_policy_preserves_script_ipc_and_keybinding_permissions() {
    let commands = [
        NativeCommand::Mux(Command::NewTab),
        NativeCommand::Action(ActionCommand::Invoke {
            action: NativeAction::ToggleZoom,
            context: action_context(),
        }),
        NativeCommand::Ui(UiCommand::SetPaneBadge {
            pane: PaneId(1),
            badge: Some("build".into()),
        }),
        NativeCommand::Window(WindowCommand::CreateWithLaunch {
            workspace: WorkspaceId(1),
            launch: launch_spec(),
        }),
        NativeCommand::Ui(UiCommand::OpenSelector {
            id: 1,
            title: "pick".into(),
            items: vec!["one".into()],
        }),
        NativeCommand::Clipboard(ClipboardCommand::Write("text".into())),
        NativeCommand::Script(ScriptCommand::InvokeUserCommand {
            name: "build".into(),
            pane: PaneId(1),
        }),
        NativeCommand::Config(ConfigCommand::Reload),
    ];

    for command in &commands {
        assert!(validate_command_origin(CommandOrigin::Script, command).is_ok());
        assert!(validate_command_origin(CommandOrigin::Keybinding, command).is_ok());
    }
    for command in &commands {
        let expected = matches!(command, NativeCommand::Mux(_) | NativeCommand::Config(_));
        assert_eq!(
            validate_command_origin(CommandOrigin::Ipc, command).is_ok(),
            expected
        );
    }
}

#[test]
fn native_command_envelope_routes_every_domain_to_its_handler_boundary() {
    assert!(matches!(
        route_domain_command(NativeCommand::Mux(Command::NewTab)),
        Ok(DomainCommand::Mux(Command::NewTab))
    ));
    assert!(matches!(
        route_domain_command(NativeCommand::Pane(PaneCommand::Search {
            pane: PaneId(1),
            query: "query".into(),
            direction: PaneSearchDirection::Next,
        })),
        Ok(DomainCommand::Pane(PaneCommand::Search { .. }))
    ));
    assert!(matches!(
        route_domain_command(NativeCommand::Window(WindowCommand::Minimize)),
        Ok(DomainCommand::Window(WindowCommand::Minimize))
    ));
    assert!(matches!(
        route_domain_command(NativeCommand::Ui(UiCommand::OpenSearch { pane: PaneId(1) })),
        Ok(DomainCommand::Ui(UiCommand::OpenSearch { .. }))
    ));
    assert!(matches!(
        route_domain_command(NativeCommand::Clipboard(ClipboardCommand::Write(
            "text".into(),
        ))),
        Ok(DomainCommand::Clipboard(ClipboardCommand::Write(_)))
    ));
    assert!(matches!(
        route_domain_command(NativeCommand::Script(ScriptCommand::InvokeUserCommand {
            name: "build".into(),
            pane: PaneId(1),
        },)),
        Ok(DomainCommand::Script(ScriptCommand::InvokeUserCommand { .. }))
    ));
    assert!(matches!(
        route_domain_command(NativeCommand::Config(ConfigCommand::Reload)),
        Ok(DomainCommand::Config(ConfigCommand::Reload))
    ));
    assert!(route_domain_command(NativeCommand::Action(ActionCommand::Invoke {
        action: NativeAction::ToggleZoom,
        context: action_context(),
    }))
    .is_err());
}

#[test]
fn action_resolution_separates_user_actions_from_context_bound_execution() {
    let mux = Mux::new();
    let context = ActionContext {
        workspace: mux.current_workspace(),
        window: mux.current_window().unwrap(),
        tab: mux.current_tab().unwrap(),
        pane: mux.current_pane().unwrap(),
    };
    let invoke = |action| ActionCommand::Invoke { action, context };

    assert_eq!(
        resolve_action_command(
            invoke(NativeAction::ToggleZoom),
            CommandOrigin::Keybinding,
            &mux,
            None,
        ),
        Ok(ActionResolution {
            activation: Vec::new(),
            command: Some(NativeCommand::Mux(Command::ToggleZoom)),
        })
    );
    assert_eq!(
        resolve_action_command(
            invoke(NativeAction::ToggleZoom),
            CommandOrigin::Script,
            &mux,
            None,
        ),
        Ok(ActionResolution {
            activation: vec![
                Command::ActivateWorkspace(context.workspace),
                Command::ActivateWindow(context.window),
                Command::ActivateTab(context.tab),
                Command::ActivatePane(context.pane),
            ],
            command: Some(NativeCommand::Mux(Command::ToggleZoom)),
        })
    );
    assert_eq!(
        resolve_action_command(
            invoke(NativeAction::ReloadConfig),
            CommandOrigin::Script,
            &mux,
            None,
        ),
        Ok(ActionResolution {
            activation: Vec::new(),
            command: Some(NativeCommand::Config(ConfigCommand::Reload)),
        })
    );
    assert!(resolve_action_command(
        invoke(NativeAction::ToggleZoom),
        CommandOrigin::Ipc,
        &mux,
        None,
    )
    .is_err());
}

#[test]
fn action_resolution_routes_actions_to_concrete_domains() {
    let mux = Mux::new();
    let context = ActionContext {
        workspace: mux.current_workspace(),
        window: mux.current_window().unwrap(),
        tab: mux.current_tab().unwrap(),
        pane: mux.current_pane().unwrap(),
    };
    let resolve = |action| {
        resolve_action_command(
            ActionCommand::Invoke { action, context },
            CommandOrigin::Keybinding,
            &mux,
            None,
        )
        .unwrap()
        .command
        .unwrap()
    };

    assert!(matches!(
        resolve(NativeAction::Split(SplitDirection::Right)),
        NativeCommand::Mux(Command::Split { .. })
    ));
    assert!(matches!(
        resolve(NativeAction::Search),
        NativeCommand::Ui(UiCommand::OpenSearch { .. })
    ));
    assert!(matches!(
        resolve(NativeAction::ToggleFullscreen),
        NativeCommand::Window(WindowCommand::ToggleFullscreen)
    ));
    assert!(matches!(
        resolve(NativeAction::CopySelection),
        NativeCommand::Clipboard(ClipboardCommand::CopySelection { .. })
    ));
    assert!(matches!(
        resolve(NativeAction::UserCommand("build".into())),
        NativeCommand::Script(ScriptCommand::InvokeUserCommand { .. })
    ));
    assert!(matches!(
        resolve(NativeAction::ReloadConfig),
        NativeCommand::Config(ConfigCommand::Reload)
    ));
}

#[test]
fn script_action_resolution_rejects_a_stale_context_before_dispatch() {
    let mux = Mux::new();
    let mut stale = action_context();
    stale.pane = PaneId(u64::MAX);
    assert!(resolve_action_command(
        ActionCommand::Invoke {
            action: NativeAction::ToggleZoom,
            context: stale,
        },
        CommandOrigin::Script,
        &mux,
        None,
    )
    .is_err());
}

#[test]
fn config_reload_is_returned_as_an_application_effect() {
    assert_eq!(
        apply_config_command(ConfigCommand::Reload),
        ControlEffects::reload_config()
    );
}

#[test]
fn callback_actions_reactivate_their_origin_context() {
    let context = ActionContext {
        workspace: WorkspaceId(1),
        window: WindowId(2),
        tab: TabId(3),
        pane: PaneId(4),
    };
    assert_eq!(
        context_activation_commands(&NativeAction::ToggleZoom, context),
        vec![
            Command::ActivateWorkspace(context.workspace),
            Command::ActivateWindow(context.window),
            Command::ActivateTab(context.tab),
            Command::ActivatePane(context.pane),
        ]
    );
    assert!(context_activation_commands(&NativeAction::ToggleFullscreen, context).is_empty());

    let mut mux = Mux::new();
    let valid = ActionContext {
        workspace: mux.current_workspace(),
        window: mux.current_window().unwrap(),
        tab: mux.current_tab().unwrap(),
        pane: mux.current_pane().unwrap(),
    };
    assert!(action_context_is_valid(&mux, valid));
    let first_pane = valid.pane;
    let CommandResult::Tab(second_tab) = mux.dispatch(Command::NewTab).unwrap() else {
        panic!("new tab did not return a tab");
    };
    assert!(!action_context_is_valid(
        &mux,
        ActionContext {
            tab: second_tab,
            pane: first_pane,
            ..valid
        }
    ));
}

#[test]
fn coordinator_covers_tab_pane_and_workspace_lifecycles() {
    let mut mux = Mux::new();
    let mut events = VecDeque::new();
    let original_workspace = mux.current_workspace();
    let window = mux.current_window().unwrap();
    let original_tab = mux.current_tab().unwrap();
    let original_pane = mux.current_pane().unwrap();

    dispatch_coordinator_command(&mut mux, &mut events, Command::NewTab).unwrap();
    let new_tab = mux.current_tab().unwrap();
    let new_tab_pane = mux.current_pane().unwrap();
    assert_ne!(new_tab, original_tab);
    assert_eq!(mux.tabs(window).unwrap(), &[original_tab, new_tab]);
    assert_eq!(
        event_names(&events),
        ["tab_created", "pane_created", "pane_focused"]
    );
    events.clear();

    dispatch_coordinator_command(&mut mux, &mut events, Command::ActivateTab(original_tab))
        .unwrap();
    assert_eq!(mux.current_pane(), Some(original_pane));
    dispatch_coordinator_command(&mut mux, &mut events, Command::ActivateTab(new_tab)).unwrap();
    dispatch_coordinator_command(&mut mux, &mut events, Command::CloseTab(new_tab)).unwrap();
    assert_eq!(mux.current_tab(), Some(original_tab));
    assert_eq!(mux.tabs(window).unwrap(), &[original_tab]);
    assert!(!mux.pane_ids().iter().any(|pane| *pane == new_tab_pane));
    assert!(event_names(&events).contains(&"tab_closed"));
    events.clear();

    dispatch_coordinator_command(
        &mut mux,
        &mut events,
        Command::Split {
            pane: original_pane,
            direction: SplitDirection::Right,
        },
    )
    .unwrap();
    let split_pane = mux.current_pane().unwrap();
    assert_ne!(split_pane, original_pane);
    dispatch_coordinator_command(&mut mux, &mut events, Command::ActivatePane(original_pane))
        .unwrap();
    assert_eq!(mux.current_pane(), Some(original_pane));
    dispatch_coordinator_command(&mut mux, &mut events, Command::ClosePane(split_pane)).unwrap();
    assert_eq!(mux.tab_panes(original_tab).unwrap(), vec![original_pane]);
    assert!(event_names(&events).contains(&"pane_closed"));
    events.clear();

    dispatch_coordinator_command(
        &mut mux,
        &mut events,
        Command::SwitchWorkspace("tests".into()),
    )
    .unwrap();
    let new_workspace = mux.current_workspace();
    assert_ne!(new_workspace, original_workspace);
    dispatch_coordinator_command(
        &mut mux,
        &mut events,
        Command::ActivateWorkspace(original_workspace),
    )
    .unwrap();
    assert_eq!(mux.current_workspace(), original_workspace);
    assert_eq!(
        event_names(&events),
        [
            "workspace_changed",
            "pane_focused",
            "workspace_changed",
            "pane_focused"
        ]
    );
}

#[test]
fn pane_creation_returns_the_new_pane_for_custom_launch_staging() {
    let mut mux = Mux::new();
    let mut events = VecDeque::new();
    let workspace = mux.current_workspace();
    let window = mux.current_window().unwrap();
    let original = mux.current_pane().unwrap();

    let tab_pane =
        dispatch_pane_creation(&mut mux, &mut events, PaneCreation::NewTab(window)).unwrap();
    assert_ne!(tab_pane, original);
    assert_eq!(mux.current_pane(), Some(tab_pane));

    let split_pane = dispatch_pane_creation(
        &mut mux,
        &mut events,
        PaneCreation::Split {
            pane: tab_pane,
            direction: SplitDirection::Right,
        },
    )
    .unwrap();
    assert_ne!(split_pane, tab_pane);
    assert_eq!(mux.current_pane(), Some(split_pane));

    let window_pane =
        dispatch_pane_creation(&mut mux, &mut events, PaneCreation::NewWindow(workspace)).unwrap();
    assert_ne!(window_pane, split_pane);
    assert_eq!(mux.current_pane(), Some(window_pane));
    assert_eq!(mux.workspace_windows(workspace).unwrap().len(), 2);
    assert!(event_names(&events).contains(&"tab_created"));
    assert!(event_names(&events).contains(&"pane_created"));
    assert!(event_names(&events).contains(&"window_created"));
}

#[test]
fn runtime_events_stay_fifo_across_reload_and_callback_commands() {
    let mut mux = Mux::new();
    let mut events = VecDeque::from([RubyEvent::new(ScriptEventKind::TitleChanged)]);

    dispatch_coordinator_command(&mut mux, &mut events, Command::NewTab).unwrap();
    events.push_back(RubyEvent::new(ScriptEventKind::ConfigReloaded));
    let pane = mux.current_pane().unwrap();
    dispatch_coordinator_command(
        &mut mux,
        &mut events,
        Command::Split {
            pane,
            direction: SplitDirection::Down,
        },
    )
    .unwrap();

    assert_eq!(
        event_names(&events),
        [
            "title_changed",
            "tab_created",
            "pane_created",
            "pane_focused",
            "config_reloaded",
            "pane_created",
            "pane_focused"
        ]
    );
}

#[test]
fn unassigned_keys_do_not_schedule_ruby_invocations() {
    let actions: Vec<(String, NativeAction)> = Vec::new();
    let bindings: Vec<String> = Vec::new();
    let mut ruby_invocations = 0;

    let dispatch = resolve_keybinding(&actions, &bindings, vec!["CTRL+UNASSIGNED".to_owned()], false);
    if matches!(dispatch, KeybindingDispatch::Ruby(_)) {
        ruby_invocations += 1;
    }

    assert_eq!(dispatch, KeybindingDispatch::Unassigned);
    assert_eq!(ruby_invocations, 0);
}

#[test]
fn visual_only_actions_are_skipped_outside_visual_mode() {
    let actions = vec![(
        "H".to_owned(),
        NativeAction::MoveVisualSelection(SelectionMotion::Left),
    )];
    let bindings: Vec<String> = Vec::new();

    assert_eq!(
        resolve_keybinding(&actions, &bindings, vec!["H".into()], false),
        KeybindingDispatch::Unassigned
    );
    assert_eq!(
        resolve_keybinding(&actions, &bindings, vec!["H".into()], true),
        KeybindingDispatch::Native(NativeAction::MoveVisualSelection(SelectionMotion::Left))
    );
}

#[test]
fn script_bindings_answer_when_no_native_action_matches() {
    let actions = vec![("CTRL+T".to_owned(), NativeAction::NewTab)];
    let bindings = vec!["CTRL+R".to_owned()];
    assert_eq!(
        resolve_keybinding(&actions, &bindings, vec!["CTRL+R".into(), "CTRL+T".into()], false),
        KeybindingDispatch::Ruby("CTRL+R".into())
    );
    assert_eq!(
        resolve_keybinding(&actions, &bindings, vec!["CTRL+T".into()], false),
        KeybindingDispatch::Native(NativeAction::NewTab)
    );
}
