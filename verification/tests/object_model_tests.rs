use toyoterm::api::{Command, CommandResult, PaneId, SplitDirection};
use toyoterm::mux::Mux;
use toyoterm::object_model::{ruby_object_model, PaneRuntimeInfo};

#[test]
fn scripts_see_every_object_once_in_id_order() {
    let mut mux = Mux::new();
    let first_pane = mux.current_pane().unwrap();
    let first_tab = mux.current_tab().unwrap();
    let CommandResult::Tab(second_tab) = mux.dispatch(Command::NewTab).unwrap() else {
        panic!("new tab did not return a tab");
    };
    let second_tab_pane = mux.current_pane().unwrap();
    let CommandResult::Pane(split) = mux
        .dispatch(Command::Split { pane: second_tab_pane, direction: SplitDirection::Left })
        .unwrap()
    else {
        panic!("split did not return a pane");
    };

    let model = ruby_object_model(&mux, None).unwrap();
    assert_eq!(model.current_workspace, mux.current_workspace());
    assert_eq!(model.current_window, mux.current_window().unwrap());
    assert_eq!(model.current_tab, second_tab);
    assert_eq!(model.current_pane, mux.current_pane().unwrap());

    assert_eq!(model.workspaces.len(), 1);
    assert_eq!(model.workspaces[0].name, "Workspace 1");
    assert_eq!(model.workspaces[0].windows, vec![model.current_window]);
    assert_eq!(model.windows.len(), 1);
    assert_eq!(model.windows[0].tabs, vec![first_tab, second_tab]);

    assert_eq!(model.tabs.len(), 2);
    assert_eq!(model.tabs[0].id, first_tab);
    assert_eq!(model.tabs[0].title, "Tab 1");
    assert_eq!(model.tabs[0].panes, vec![first_pane]);
    assert_eq!(model.tabs[1].id, second_tab);
    assert_eq!(model.tabs[1].title, "Tab 2");
    assert_eq!(model.tabs[1].panes, vec![split, second_tab_pane]);

    let ids: Vec<PaneId> = model.panes.iter().map(|pane| pane.id).collect();
    assert_eq!(ids, vec![first_pane, second_tab_pane, split]);
    assert!(ids.windows(2).all(|pair| pair[0].0 < pair[1].0));
    assert_eq!(model.panes[0].title, format!("Pane {}", first_pane.0));
    assert_eq!(model.panes[0].cwd, None);
    assert!(!model.panes[0].command_running);
}

#[test]
fn pane_reports_fill_in_titles_and_process_state() {
    let mut mux = Mux::new();
    let first = mux.current_pane().unwrap();
    let CommandResult::Pane(second) = mux
        .dispatch(Command::Split { pane: first, direction: SplitDirection::Right })
        .unwrap()
    else {
        panic!("split did not return a pane");
    };
    let runtimes = vec![
        PaneRuntimeInfo {
            pane: second,
            title: "vim".to_string(),
            cwd: Some("/home/me".to_string()),
            process_id: Some(42),
            command_running: true,
            last_exit_status: Some(1),
        },
        PaneRuntimeInfo {
            pane: second,
            title: "shadowed".to_string(),
            cwd: None,
            process_id: None,
            command_running: false,
            last_exit_status: None,
        },
    ];
    let model = ruby_object_model(&mux, Some(&runtimes)).unwrap();
    assert_eq!(model.panes.len(), 2);
    assert_eq!(model.panes[0].id, first);
    assert_eq!(model.panes[0].title, format!("Pane {}", first.0));
    assert_eq!(model.panes[0].pid, None);
    assert_eq!(model.panes[1].id, second);
    assert_eq!(model.panes[1].title, "vim");
    assert_eq!(model.panes[1].cwd.as_deref(), Some("/home/me"));
    assert_eq!(model.panes[1].pid, Some(42));
    assert!(model.panes[1].command_running);
    assert_eq!(model.panes[1].last_exit_status, Some(1));
}
