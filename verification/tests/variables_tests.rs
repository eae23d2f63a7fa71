use toyoterm::variables::{SessionVariables, UserVars, MAX_OSC_USER_VARS};

const NAME_LIMIT: usize = 256;

fn session() -> SessionVariables {
    let mut user_vars = UserVars::new();
    assert!(user_vars.set("gitBranch".to_string(), "main".to_string()));
    SessionVariables {
        title: "build server".to_string(),
        icon_title: Some("build".to_string()),
        columns: 80,
        rows: 24,
        path: Some("/srv/project".to_string()),
        shell: Some("bash".to_string()),
        remote_host: Some("alice@example.com".to_string()),
        user_vars,
        badge: None,
    }
}

#[test]
fn reports_bounded_iterm_session_variables() {
    let mut runtime = session();

    assert_eq!(
        runtime.iterm_variable_response("session.name"),
        "\x1b]1337;ReportVariable=YnVpbGQgc2VydmVy\x1b\\"
    );
    assert_eq!(
        runtime.iterm_variable_value("session.terminalIconName").as_deref(),
        Some("build")
    );
    assert_eq!(
        runtime.iterm_variable_value("session.path").as_deref(),
        Some("/srv/project")
    );
    assert_eq!(runtime.iterm_variable_value("session.columns").as_deref(), Some("80"));
    assert_eq!(runtime.iterm_variable_value("session.rows").as_deref(), Some("24"));
    assert_eq!(runtime.iterm_variable_value("session.shell").as_deref(), Some("bash"));
    assert_eq!(
        runtime.iterm_variable_value("session.hostname").as_deref(),
        Some("example.com")
    );
    assert_eq!(runtime.iterm_variable_value("session.username").as_deref(), Some("alice"));
    assert_eq!(
        runtime.iterm_variable_value("session.user.gitBranch").as_deref(),
        Some("main")
    );
    assert_eq!(
        runtime.iterm_variable_response("session.unknown"),
        "\x1b]1337;ReportVariable=\x1b\\"
    );
    assert_eq!(
        runtime
            .interpolate_iterm_badge(
                r"\(session.name) · \(user.gitBranch) · \(session.hostname)",
                NAME_LIMIT
            )
            .as_deref(),
        Some("build server · main · example.com")
    );
    assert_eq!(
        runtime
            .interpolate_iterm_badge(r"unknown=\(session.missing)", NAME_LIMIT)
            .as_deref(),
        Some("unknown=")
    );
    runtime.apply_iterm_badge_format(r"\(session.name):\(user.gitBranch)", NAME_LIMIT);
    assert_eq!(runtime.badge.as_deref(), Some("build server:main"));
    runtime.apply_iterm_badge_format("", NAME_LIMIT);
    assert_eq!(runtime.badge, None);
}

#[test]
fn hosts_without_a_user_have_no_host_variables() {
    let mut runtime = session();
    runtime.remote_host = Some("example.com".to_string());
    assert_eq!(runtime.iterm_variable_value("session.hostname"), None);
    assert_eq!(runtime.iterm_variable_value("session.username"), None);
    runtime.remote_host = Some("a@b@c".to_string());
    assert_eq!(runtime.iterm_variable_value("session.username").as_deref(), Some("a"));
    assert_eq!(runtime.iterm_variable_value("session.hostname").as_deref(), Some("b@c"));
    runtime.remote_host = None;
    assert_eq!(runtime.iterm_variable_value("session.hostname"), None);
}

#[test]
fn oversized_values_are_not_reported() {
    let mut runtime = session();
    runtime.title = "x".repeat(4096);
    assert_eq!(runtime.iterm_variable_value("session.name").map(|v| v.len()), Some(4096));
    runtime.title = "x".repeat(4097);
    assert_eq!(runtime.iterm_variable_value("session.name"), None);
    assert_eq!(
        runtime.iterm_variable_response("session.name"),
        "\x1b]1337;ReportVariable=\x1b\\"
    );
}

#[test]
fn badges_keep_unclosed_openings_and_drop_bad_names() {
    let runtime = session();
    assert_eq!(
        runtime.interpolate_iterm_badge(r"a \(session.rows", NAME_LIMIT).as_deref(),
        Some(r"a \(session.rows")
    );
    assert_eq!(
        runtime.interpolate_iterm_badge(r"[\(session.columns)x\(session.rows)]", NAME_LIMIT).as_deref(),
        Some("[80x24]")
    );
    assert_eq!(
        runtime.interpolate_iterm_badge(r"\(session.name)", 5).as_deref(),
        Some("")
    );
    assert_eq!(
        runtime.interpolate_iterm_badge("\\(session.\u{1}name)!", NAME_LIMIT).as_deref(),
        Some("!")
    );
    assert_eq!(
        runtime.interpolate_iterm_badge("plain (text)", NAME_LIMIT).as_deref(),
        Some("plain (text)")
    );
    let long = "y".repeat(4097);
    assert_eq!(runtime.interpolate_iterm_badge(&long, NAME_LIMIT), None);
    let mut wide = session();
    wide.title = "z".repeat(3000);
    assert_eq!(
        wide.interpolate_iterm_badge(r"\(session.name)\(session.name)", NAME_LIMIT),
        None
    );
}

#[test]
fn user_variables_are_bounded_but_stay_updatable() {
    let mut vars = UserVars::new();
    for i in 0..MAX_OSC_USER_VARS {
        assert!(vars.set(format!("v{i}"), "x".to_string()));
    }
    assert_eq!(vars.len(), MAX_OSC_USER_VARS);
    assert!(!vars.set("extra".to_string(), "y".to_string()));
    assert_eq!(vars.get("extra"), None);
    assert!(vars.set("v3".to_string(), "updated".to_string()));
    assert_eq!(vars.get("v3").map(|s| s.as_str()), Some("updated"));
    assert_eq!(vars.len(), MAX_OSC_USER_VARS);
}
