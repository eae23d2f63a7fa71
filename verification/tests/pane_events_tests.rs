use toyoterm::api::{PaneId, ScriptEventKind};
use toyoterm::notify::{NotificationSound, NotificationUrgency};
use toyoterm::pane_events::{
    apply_terminal_event, OutputPolicy, PaneAction, PaneProtocolState,
    MAX_TRACKED_NOTIFICATION_IDS, OSC_CURSOR_FIREWORKS_DURATION_MS,
    OSC_NOTIFICATION_INTERVAL_MS,
};
use toyoterm::session::{
    notification_platform_id, ActiveNotifications, NotificationFeedback, NotificationFeedbackKind,
    NotificationOccasion, NotificationReporting,
    SessionStatusState, TabColorComponent, TabColorState, TerminalProgress,
};
use toyoterm::terminal_events::{NotificationRequest, TerminalAttention, TerminalEvent};
use toyoterm::variables::{SessionVariables, UserVars};

fn fresh_state() -> PaneProtocolState {
    PaneProtocolState {
        variables: SessionVariables {
            title: "shell".to_string(),
            icon_title: None,
            columns: 80,
            rows: 24,
            path: None,
            shell: None,
            remote_host: None,
            user_vars: UserVars::new(),
            badge: None,
        },
        cursor_line_highlight: false,
        shell_integration_version: None,
        command_running: false,
        last_exit_status: None,
        progress: None,
        tab_color: TabColorState::default(),
        session_status: SessionStatusState::default(),
        mouse_cursor: None,
        last_notification_at: None,
        active_notifications: ActiveNotifications::new(),
        last_open_url_at: None,
        visual_bell_deadline: None,
        cursor_fireworks_deadline: None,
    }
}

fn allow_all() -> OutputPolicy {
    OutputPolicy {
        allow_notifications: true,
        allow_attention: true,
        allow_open_url: true,
        source_focused: false,
        source_visible: false,
        variable_name_limit: 256,
    }
}

fn deny_all() -> OutputPolicy {
    OutputPolicy {
        allow_notifications: false,
        allow_attention: false,
        allow_open_url: false,
        source_focused: true,
        source_visible: true,
        variable_name_limit: 256,
    }
}

fn request(id: Option<&str>, body: &str) -> NotificationRequest {
    NotificationRequest {
        id: id.map(|id| id.to_string()),
        title: Some("Build".to_string()),
        body: body.to_string(),
        occasion: NotificationOccasion::Always,
        urgency: NotificationUrgency::Normal,
        timeout_ms: Some(5000),
        sound: NotificationSound::System,
        icon_name: None,
        icon: None,
        buttons: vec!["Open".to_string()],
        reporting: NotificationReporting { activation: true, close: false },
    }
}

#[test]
fn title_reset_names_the_pane_and_tells_scripts() {
    let mut state = fresh_state();
    let actions = apply_terminal_event(&mut state, PaneId(4), TerminalEvent::TitleReset, allow_all(), 0);
    assert_eq!(state.variables.title, "Pane 4");
    assert_eq!(actions.len(), 1);
    match &actions[0] {
        PaneAction::ScriptEvent(event) => {
            assert_eq!(event.kind, ScriptEventKind::TitleChanged);
            assert_eq!(event.title.as_deref(), Some("Pane 4"));
            assert_eq!(event.pane, Some(PaneId(4)));
        }
        other => panic!("unexpected action {other:?}"),
    }
}

#[test]
fn metadata_reports_update_the_pane_state() {
    let mut state = fresh_state();
    let pane = PaneId(1);
    apply_terminal_event(&mut state, pane, TerminalEvent::CwdChanged("/tmp".to_string()), allow_all(), 0);
    apply_terminal_event(
        &mut state,
        pane,
        TerminalEvent::ShellIntegrationChanged { version: 3, shell: Some("zsh".to_string()) },
        allow_all(),
        0,
    );
    apply_terminal_event(&mut state, pane, TerminalEvent::CommandStarted, allow_all(), 0);
    assert!(state.command_running);
    apply_terminal_event(&mut state, pane, TerminalEvent::CommandFinished(Some(2)), allow_all(), 0);
    assert_eq!(state.variables.path.as_deref(), Some("/tmp"));
    assert_eq!(state.variables.shell.as_deref(), Some("zsh"));
    assert_eq!(state.shell_integration_version, Some(3));
    assert!(!state.command_running);
    assert_eq!(state.last_exit_status, Some(2));
}

#[test]
fn notifications_are_spaced_by_the_interval() {
    let mut state = fresh_state();
    let pane = PaneId(2);
    let first = apply_terminal_event(
        &mut state,
        pane,
        TerminalEvent::Notification(request(Some("a"), "one")),
        allow_all(),
        1000,
    );
    assert_eq!(first.len(), 1);
    match &first[0] {
        PaneAction::ShowNotification(n) => {
            assert_eq!(n.pane, pane);
            assert_eq!(n.protocol_id, "a");
            assert_eq!(n.id, Some(notification_platform_id(pane, "a")));
            assert_eq!(n.body, "one");
            assert_eq!(n.buttons, vec!["Open".to_string()]);
        }
        other => panic!("unexpected action {other:?}"),
    }
    assert_eq!(state.last_notification_at, Some(1000));
    assert!(state.active_notifications.contains_key("a"));

    let too_soon = apply_terminal_event(
        &mut state,
        pane,
        TerminalEvent::Notification(request(Some("b"), "two")),
        allow_all(),
        1000 + OSC_NOTIFICATION_INTERVAL_MS - 1,
    );
    assert!(too_soon.is_empty());
    assert_eq!(state.last_notification_at, Some(1000));
    assert!(!state.active_notifications.contains_key("b"));

    let later = apply_terminal_event(
        &mut state,
        pane,
        TerminalEvent::Notification(request(None, "three")),
        allow_all(),
        1000 + OSC_NOTIFICATION_INTERVAL_MS,
    );
    match &later[0] {
        PaneAction::ShowNotification(n) => {
            assert_eq!(n.protocol_id, "0");
            assert_eq!(n.id, None);
        }
        other => panic!("unexpected action {other:?}"),
    }
}

#[test]
fn notifications_follow_policy_and_occasion() {
    let mut state = fresh_state();
    let denied = apply_terminal_event(
        &mut state,
        PaneId(1),
        TerminalEvent::Notification(request(Some("a"), "x")),
        deny_all(),
        0,
    );
    assert!(denied.is_empty());
    assert_eq!(state.last_notification_at, None);

    let mut unfocused_only = request(Some("a"), "x");
    unfocused_only.occasion = NotificationOccasion::Unfocused;
    let mut focused = allow_all();
    focused.source_focused = true;
    let skipped = apply_terminal_event(
        &mut state,
        PaneId(1),
        TerminalEvent::Notification(unfocused_only),
        focused,
        0,
    );
    assert!(skipped.is_empty());
}

#[test]
fn at_most_thirty_two_notification_ids_are_tracked() {
    let mut state = fresh_state();
    let mut now = 0;
    for k in 0..(MAX_TRACKED_NOTIFICATION_IDS + 3) {
        let id = format!("n{k}");
        let actions = apply_terminal_event(
            &mut state,
            PaneId(1),
            TerminalEvent::Notification(request(Some(&id), "x")),
            allow_all(),
            now,
        );
        assert_eq!(actions.len(), 1);
        now += OSC_NOTIFICATION_INTERVAL_MS;
    }
    assert_eq!(state.active_notifications.len(), MAX_TRACKED_NOTIFICATION_IDS);
    assert!(state.active_notifications.contains_key("n0"));
    assert!(!state.active_notifications.contains_key("n33"));
}

#[test]
fn closing_an_active_notification_closes_it_on_the_desktop() {
    let mut state = fresh_state();
    let pane = PaneId(9);
    apply_terminal_event(
        &mut state,
        pane,
        TerminalEvent::Notification(request(Some("job"), "x")),
        allow_all(),
        0,
    );
    let closed = apply_terminal_event(
        &mut state,
        pane,
        TerminalEvent::NotificationClose("job".to_string()),
        allow_all(),
        10,
    );
    assert_eq!(closed.len(), 1);
    match &closed[0] {
        PaneAction::CloseNotification(id) => assert_eq!(*id, notification_platform_id(pane, "job")),
        other => panic!("unexpected action {other:?}"),
    }
    let again = apply_terminal_event(
        &mut state,
        pane,
        TerminalEvent::NotificationClose("job".to_string()),
        allow_all(),
        20,
    );
    assert!(again.is_empty());
}

#[test]
fn alive_query_reports_the_active_ids() {
    let mut state = fresh_state();
    let pane = PaneId(1);
    apply_terminal_event(
        &mut state,
        pane,
        TerminalEvent::Notification(request(Some("a"), "x")),
        allow_all(),
        0,
    );
    let actions = apply_terminal_event(
        &mut state,
        pane,
        TerminalEvent::NotificationAliveQuery("q".to_string()),
        allow_all(),
        100,
    );
    match &actions[0] {
        PaneAction::WritePty(reply) => assert_eq!(reply, "\x1b]99;i=q:p=alive;a\x1b\\"),
        other => panic!("unexpected action {other:?}"),
    }
    let expired = apply_terminal_event(
        &mut state,
        pane,
        TerminalEvent::NotificationAliveQuery("q".to_string()),
        allow_all(),
        6000,
    );
    match &expired[0] {
        PaneAction::WritePty(reply) => assert_eq!(reply, "\x1b]99;i=q:p=alive;\x1b\\"),
        other => panic!("unexpected action {other:?}"),
    }
}

#[test]
fn attention_requests_need_permission_but_cancel_always_passes() {
    let mut state = fresh_state();
    let pane = PaneId(1);
    let denied = apply_terminal_event(
        &mut state,
        pane,
        TerminalEvent::AttentionRequested(TerminalAttention::Indefinite),
        deny_all(),
        0,
    );
    assert!(denied.is_empty());
    let cancel = apply_terminal_event(
        &mut state,
        pane,
        TerminalEvent::AttentionRequested(TerminalAttention::Cancel),
        deny_all(),
        0,
    );
    assert!(matches!(cancel[0], PaneAction::RequestAttention(TerminalAttention::Cancel)));
    apply_terminal_event(
        &mut state,
        pane,
        TerminalEvent::AttentionRequested(TerminalAttention::Fireworks),
        deny_all(),
        0,
    );
    assert_eq!(state.cursor_fireworks_deadline, None);
    let fireworks = apply_terminal_event(
        &mut state,
        pane,
        TerminalEvent::AttentionRequested(TerminalAttention::Fireworks),
        allow_all(),
        500,
    );
    assert!(fireworks.is_empty());
    assert_eq!(state.cursor_fireworks_deadline, Some(500 + OSC_CURSOR_FIREWORKS_DURATION_MS));
    let once = apply_terminal_event(
        &mut state,
        pane,
        TerminalEvent::AttentionRequested(TerminalAttention::Once),
        allow_all(),
        0,
    );
    assert!(matches!(once[0], PaneAction::RequestAttention(TerminalAttention::Once)));
}

#[test]
fn urls_open_when_allowed_and_not_too_often() {
    let mut state = fresh_state();
    let pane = PaneId(1);
    let url = || TerminalEvent::OpenUrlRequested("https://example.com".to_string());
    assert!(apply_terminal_event(&mut state, pane, url(), deny_all(), 0).is_empty());
    let opened = apply_terminal_event(&mut state, pane, url(), allow_all(), 5000);
    assert!(matches!(&opened[0], PaneAction::OpenUrl(u) if u == "https://example.com"));
    assert_eq!(state.last_open_url_at, Some(5000));
    assert!(apply_terminal_event(&mut state, pane, url(), allow_all(), 5001).is_empty());
    let refused = TerminalEvent::OpenUrlRequested("file:///etc/passwd".to_string());
    assert!(apply_terminal_event(&mut state, pane, refused, allow_all(), 9000).is_empty());
}

#[test]
fn clipboard_mouse_and_pty_writes_become_actions() {
    let mut state = fresh_state();
    let pane = PaneId(1);
    let copy = apply_terminal_event(
        &mut state,
        pane,
        TerminalEvent::ClipboardStore("copied".to_string()),
        deny_all(),
        0,
    );
    assert!(matches!(&copy[0], PaneAction::CopyToClipboard(t) if t == "copied"));
    let write = apply_terminal_event(
        &mut state,
        pane,
        TerminalEvent::PtyWrite("\x1b[0n".to_string()),
        deny_all(),
        0,
    );
    assert!(matches!(&write[0], PaneAction::WritePty(t) if t == "\x1b[0n"));
    let cursor = apply_terminal_event(
        &mut state,
        pane,
        TerminalEvent::MouseCursorChanged("text".to_string()),
        deny_all(),
        0,
    );
    assert!(matches!(cursor[0], PaneAction::UpdateMouseCursor));
    assert_eq!(state.mouse_cursor.as_deref(), Some("text"));
}

#[test]
fn tab_colour_progress_and_bell_reports_update_state() {
    let mut state = fresh_state();
    let pane = PaneId(1);
    apply_terminal_event(
        &mut state,
        pane,
        TerminalEvent::TabColorChanged { component: TabColorComponent::Green, value: 7 },
        deny_all(),
        0,
    );
    assert_eq!(state.tab_color.green, Some(7));
    assert_eq!(state.tab_color.red, None);
    apply_terminal_event(&mut state, pane, TerminalEvent::TabColorSet([1, 2, 3]), deny_all(), 0);
    assert_eq!(state.tab_color.complete(), Some([1, 2, 3]));
    apply_terminal_event(&mut state, pane, TerminalEvent::TabColorReset, deny_all(), 0);
    assert_eq!(state.tab_color.complete(), None);
    apply_terminal_event(
        &mut state,
        pane,
        TerminalEvent::ProgressChanged(TerminalProgress::Normal(40)),
        deny_all(),
        0,
    );
    assert_eq!(state.progress, Some(TerminalProgress::Normal(40)));
    let bell = apply_terminal_event(
        &mut state,
        pane,
        TerminalEvent::Bell { visual_bell: Some([255, 0, 0]) },
        deny_all(),
        100,
    );
    assert_eq!(state.visual_bell_deadline, Some(250));
    assert!(matches!(&bell[0], PaneAction::ScriptEvent(e) if e.kind == ScriptEventKind::Bell));
}

#[test]
fn user_variables_and_variable_queries() {
    let mut state = fresh_state();
    let pane = PaneId(1);
    apply_terminal_event(
        &mut state,
        pane,
        TerminalEvent::UserVarChanged { name: "job".to_string(), value: "build".to_string() },
        deny_all(),
        0,
    );
    assert_eq!(state.variables.user_vars.get("job").map(|v| v.as_str()), Some("build"));
    let reply = apply_terminal_event(
        &mut state,
        pane,
        TerminalEvent::ItermVariableQuery("session.user.job".to_string()),
        deny_all(),
        0,
    );
    match &reply[0] {
        PaneAction::WritePty(text) => assert_eq!(text, "\x1b]1337;ReportVariable=YnVpbGQ=\x1b\\"),
        other => panic!("unexpected action {other:?}"),
    }
    apply_terminal_event(
        &mut state,
        pane,
        TerminalEvent::ItermBadgeFormatChanged("job: \\(user.job)".to_string()),
        deny_all(),
        0,
    );
    assert_eq!(state.variables.badge.as_deref(), Some("job: build"));
}

#[test]
fn feedback_forgets_the_notification_and_answers_the_program() {
    let mut state = fresh_state();
    let pane = PaneId(1);
    apply_terminal_event(
        &mut state,
        pane,
        TerminalEvent::Notification(request(Some("job"), "x")),
        allow_all(),
        0,
    );
    assert!(state.active_notifications.contains_key("job"));
    let reply = state.apply_notification_feedback(&NotificationFeedback {
        pane,
        id: "job".to_string(),
        kind: NotificationFeedbackKind::Closed,
    });
    assert_eq!(reply, "\x1b]99;i=job:p=close;\x1b\\");
    assert!(!state.active_notifications.contains_key("job"));
}
