use toyoterm::api::{PaneId, ScriptEventKind};
use toyoterm::terminal_events::{ruby_event_from_terminal_event, TerminalEvent};

#[test]
fn maps_shell_command_lifecycle_to_ruby_events() {
    let pane = PaneId(7);
    let prompt = ruby_event_from_terminal_event(pane, TerminalEvent::PromptStarted).unwrap();
    assert_eq!(prompt.name(), "prompt_started");
    assert_eq!(prompt.pane, Some(pane));

    let command_line =
        ruby_event_from_terminal_event(pane, TerminalEvent::CommandLineStarted).unwrap();
    assert_eq!(command_line.name(), "command_line_started");
    assert_eq!(command_line.pane, Some(pane));

    let started = ruby_event_from_terminal_event(pane, TerminalEvent::CommandStarted).unwrap();
    assert_eq!(started.name(), "command_started");
    assert_eq!(started.pane, Some(pane));
    assert_eq!(started.exit_status, None);

    let finished =
        ruby_event_from_terminal_event(pane, TerminalEvent::CommandFinished(Some(23))).unwrap();
    assert_eq!(finished.name(), "command_finished");
    assert_eq!(finished.pane, Some(pane));
    assert_eq!(finished.exit_status, Some(23));
}

#[test]
fn titles_directories_and_bells_reach_scripts() {
    let pane = PaneId(3);
    let titled =
        ruby_event_from_terminal_event(pane, TerminalEvent::TitleChanged("vim".to_string())).unwrap();
    assert_eq!(titled.kind, ScriptEventKind::TitleChanged);
    assert_eq!(titled.title.as_deref(), Some("vim"));
    let reset = ruby_event_from_terminal_event(pane, TerminalEvent::TitleReset).unwrap();
    assert_eq!(reset.kind, ScriptEventKind::TitleChanged);
    assert_eq!(reset.title.as_deref(), Some("Pane 3"));
    let moved =
        ruby_event_from_terminal_event(pane, TerminalEvent::CwdChanged("/tmp".to_string())).unwrap();
    assert_eq!(moved.name(), "cwd_changed");
    assert_eq!(moved.cwd.as_deref(), Some("/tmp"));
    assert_eq!(moved.title, None);
    let bell = ruby_event_from_terminal_event(pane, TerminalEvent::Bell { visual_bell: None }).unwrap();
    assert_eq!(bell.name(), "bell");
    assert_eq!(bell.pane, Some(pane));
    assert_eq!(bell.tab, None);
    assert!(ruby_event_from_terminal_event(pane, TerminalEvent::MarkSet).is_none());
    assert!(ruby_event_from_terminal_event(pane, TerminalEvent::IconTitleChanged("i".to_string())).is_none());
    assert!(ruby_event_from_terminal_event(pane, TerminalEvent::PtyWrite("x".to_string())).is_none());
}
