use toyoterm::api::{Command, CommandResult, Event, NativeHandle, SplitDirection};
use toyoterm::mux::{Mux, MuxError};
use toyoterm::tree::PaneNode;

struct Cases(u64);

impl Cases {
    fn next(&mut self) -> u32 {
        self.0 = self
            .0
            .wrapping_mul(6_364_136_223_846_793_005)
            .wrapping_add(1);
        (self.0 >> 32) as u32
    }

    fn index(&mut self, len: usize) -> usize {
        self.next() as usize % len
    }
}

#[test]
fn starts_with_a_usable_hierarchy() {
    let mux = Mux::new();
    assert!(mux.current_window().is_some());
    assert!(mux.current_tab().is_some());
    assert!(mux.current_pane().is_some());
    assert_eq!(
        mux.summary(),
        "workspace=Workspace 1 windows=1 tabs=1 panes=1"
    );
}

#[test]
fn tab_numbers_follow_their_position_within_the_window() {
    let mut mux = Mux::new();
    let first = mux.current_tab().unwrap();
    let CommandResult::Tab(second) = mux.dispatch(Command::NewTab).unwrap() else {
        panic!("new tab did not return a tab");
    };

    assert_eq!(mux.tab_number(first), Some(1));
    assert_eq!(mux.tab_number(second), Some(2));

    mux.dispatch(Command::CloseTab(first)).unwrap();
    assert_eq!(mux.tab_number(first), None);
    assert_eq!(mux.tab_number(second), Some(1));
}

#[test]
fn split_order_respects_direction() {
    let mut mux = Mux::new();
    let original = mux.current_pane().unwrap();
    let CommandResult::Pane(new) = mux
        .dispatch(Command::Split {
            pane: original,
            direction: SplitDirection::Left,
        })
        .unwrap()
    else {
        panic!("split did not return a pane");
    };
    let tree = mux.pane_tree(mux.current_tab().unwrap()).unwrap();
    assert_eq!(tree.panes(), vec![new, original]);
    assert_eq!(mux.current_pane(), Some(new));
}

#[test]
fn closing_a_pane_collapses_the_split() {
    let mut mux = Mux::new();
    let original = mux.current_pane().unwrap();
    let CommandResult::Pane(new) = mux
        .dispatch(Command::Split {
            pane: original,
            direction: SplitDirection::Right,
        })
        .unwrap()
    else {
        panic!("split did not return a pane");
    };
    mux.dispatch(Command::ClosePane(new)).unwrap();
    assert_eq!(
        mux.pane_tree(mux.current_tab().unwrap()).unwrap().panes(),
        vec![original]
    );
    assert_eq!(mux.current_pane(), Some(original));
}

#[test]
fn generated_split_and_close_sequences_preserve_mux_invariants() {
    let mut cases = Cases(0xdec0_de01_1234_5678);

    for case in 0..128 {
        let mut mux = Mux::new();
        let tab = mux.current_tab().unwrap();
        let mut panes = vec![mux.current_pane().unwrap()];

        for _ in 0..16 {
            let target = panes[cases.index(panes.len())];
            let direction = match cases.index(4) {
                0 => SplitDirection::Left,
                1 => SplitDirection::Right,
                2 => SplitDirection::Up,
                _ => SplitDirection::Down,
            };
            let CommandResult::Pane(created) = mux
                .dispatch(Command::Split {
                    pane: target,
                    direction,
                })
                .unwrap()
            else {
                panic!("split did not return a pane");
            };
            panes.push(created);
        }

        while panes.len() > 1 {
            let removed = panes.swap_remove(cases.index(panes.len()));
            mux.dispatch(Command::ClosePane(removed)).unwrap();

            let tree_panes = mux.pane_tree(tab).unwrap().panes();
            assert_eq!(tree_panes.len(), panes.len(), "case {case}");
            assert!(
                panes.iter().all(|pane| tree_panes.contains(pane)),
                "case {case}"
            );
            assert!(!mux.pane_ids().iter().any(|pane| *pane == removed), "case {case}");
            assert!(panes.contains(&mux.current_pane().unwrap()), "case {case}");
        }

        assert_eq!(mux.pane_tree(tab).unwrap(), &PaneNode::Leaf(panes[0]));
    }
}

#[test]
fn send_text_is_queued_without_a_script_callback() {
    let mut mux = Mux::new();
    let pane = mux.current_pane().unwrap();
    mux.dispatch(Command::SendText {
        pane,
        text: "echo hello\n".into(),
    })
    .unwrap();
    assert_eq!(mux.pending_input(pane), Some(&b"echo hello\n"[..]));
    assert_eq!(
        mux.take_pending_input(pane).unwrap(),
        b"echo hello\n".to_vec()
    );
    assert_eq!(mux.pending_input(pane), Some(&[][..]));
    assert_eq!(
        mux.drain_events(),
        vec![Event::TextQueued { pane, bytes: 11 }]
    );
}

#[test]
fn switching_to_a_new_workspace_creates_a_complete_hierarchy() {
    let mut mux = Mux::new();
    let original = mux.current_workspace();
    let CommandResult::Workspace(created) = mux
        .dispatch(Command::SwitchWorkspace("backend".into()))
        .unwrap()
    else {
        panic!("switch did not return a workspace");
    };
    assert_ne!(created, original);
    assert_eq!(mux.summary(), "workspace=backend windows=1 tabs=1 panes=1");

    let result = mux
        .dispatch(Command::SwitchWorkspace("Workspace 1".into()))
        .unwrap();
    assert_eq!(result, CommandResult::Workspace(original));
}

#[test]
fn refuses_to_remove_last_pane_or_tab() {
    let mut mux = Mux::new();
    let pane = mux.current_pane().unwrap();
    let tab = mux.current_tab().unwrap();
    assert_eq!(
        mux.dispatch(Command::ClosePane(pane)),
        Err(MuxError::CannotCloseLastPane(pane))
    );
    assert_eq!(
        mux.dispatch(Command::CloseTab(tab)),
        Err(MuxError::CannotCloseLastTab(tab))
    );
}

#[test]
fn exited_panes_collapse_their_empty_containers() {
    let mut mux = Mux::new();
    let first_pane = mux.current_pane().unwrap();
    let first_tab = mux.current_tab().unwrap();
    mux.dispatch(Command::NewTab).unwrap();
    let second_pane = mux.current_pane().unwrap();

    assert!(!mux.close_exited_pane(second_pane).unwrap());
    assert_eq!(mux.current_tab(), Some(first_tab));
    assert_eq!(mux.current_pane(), Some(first_pane));
    assert_eq!(mux.pane_ids(), vec![first_pane]);
}

#[test]
fn exited_pane_removes_an_empty_workspace() {
    let mut mux = Mux::new();
    let default_workspace = mux.current_workspace();
    let default_pane = mux.current_pane().unwrap();
    mux.dispatch(Command::SwitchWorkspace("temporary".into()))
        .unwrap();
    let temporary_pane = mux.current_pane().unwrap();

    assert!(!mux.close_exited_pane(temporary_pane).unwrap());
    assert_eq!(mux.current_workspace(), default_workspace);
    assert_eq!(mux.current_pane(), Some(default_pane));
    assert_eq!(mux.workspaces(), vec![default_workspace]);
}

#[test]
fn final_exited_pane_requests_application_exit() {
    let mut mux = Mux::new();
    let pane = mux.current_pane().unwrap();

    assert!(mux.close_exited_pane(pane).unwrap());
    assert_eq!(mux.current_pane(), Some(pane));
}

#[test]
fn tabs_keep_their_active_pane_when_switching() {
    let mut mux = Mux::new();
    let first_tab = mux.current_tab().unwrap();
    let first_pane = mux.current_pane().unwrap();
    let CommandResult::Pane(first_split) = mux
        .dispatch(Command::Split {
            pane: first_pane,
            direction: SplitDirection::Right,
        })
        .unwrap()
    else {
        panic!("split did not return a pane");
    };
    let CommandResult::Tab(second_tab) = mux.dispatch(Command::NewTab).unwrap() else {
        panic!("new tab did not return a tab");
    };

    mux.dispatch(Command::ActivateTab(first_tab)).unwrap();
    assert_eq!(mux.current_pane(), Some(first_split));
    mux.dispatch(Command::ActivateTab(second_tab)).unwrap();
    assert_ne!(mux.current_pane(), Some(first_split));
}

#[test]
fn workspaces_restore_their_active_tab_and_pane() {
    let mut mux = Mux::new();
    let first_workspace = mux.current_workspace();
    let first_tab = mux.current_tab().unwrap();
    let first_pane = mux.current_pane().unwrap();
    let CommandResult::Pane(first_split) = mux
        .dispatch(Command::Split {
            pane: first_pane,
            direction: SplitDirection::Down,
        })
        .unwrap()
    else {
        panic!("split did not return a pane");
    };

    let CommandResult::Workspace(second_workspace) = mux
        .dispatch(Command::SwitchWorkspace("backend".into()))
        .unwrap()
    else {
        panic!("switch did not return a workspace");
    };
    let second_tab = mux.current_tab().unwrap();

    mux.dispatch(Command::ActivateWorkspace(first_workspace))
        .unwrap();
    assert_eq!(mux.current_tab(), Some(first_tab));
    assert_eq!(mux.current_pane(), Some(first_split));

    mux.dispatch(Command::ActivateWorkspace(second_workspace))
        .unwrap();
    assert_eq!(mux.current_tab(), Some(second_tab));
    assert_ne!(mux.current_pane(), Some(first_split));
}

#[test]
fn generated_workspace_transitions_restore_each_active_hierarchy() {
    let mut mux = Mux::new();
    let mut cases = Cases(0xa11c_e55e_cafe_babe);
    let mut expected = vec![(
        mux.current_workspace(),
        mux.current_tab().unwrap(),
        mux.current_pane().unwrap(),
    )];

    for index in 0..24 {
        let CommandResult::Workspace(workspace) = mux
            .dispatch(Command::SwitchWorkspace(format!("generated-{index}")))
            .unwrap()
        else {
            panic!("switch did not return a workspace");
        };
        let original = mux.current_pane().unwrap();
        let direction = match cases.index(4) {
            0 => SplitDirection::Left,
            1 => SplitDirection::Right,
            2 => SplitDirection::Up,
            _ => SplitDirection::Down,
        };
        let CommandResult::Pane(active) = mux
            .dispatch(Command::Split {
                pane: original,
                direction,
            })
            .unwrap()
        else {
            panic!("split did not return a pane");
        };
        expected.push((workspace, mux.current_tab().unwrap(), active));
    }

    for case in 0..512 {
        let (workspace, tab, pane) = expected[cases.index(expected.len())];
        mux.dispatch(Command::ActivateWorkspace(workspace)).unwrap();
        assert_eq!(mux.current_workspace(), workspace, "case {case}");
        assert_eq!(mux.current_tab(), Some(tab), "case {case}");
        assert_eq!(mux.current_pane(), Some(pane), "case {case}");
    }
}

#[test]
fn tab_commands_cover_create_activate_and_close_lifecycle() {
    let mut mux = Mux::new();
    let first = mux.current_tab().unwrap();
    let CommandResult::Tab(second) = mux.dispatch(Command::NewTab).unwrap() else {
        panic!("new tab did not return a tab");
    };
    assert_eq!(mux.current_tab(), Some(second));

    mux.dispatch(Command::ActivateTab(first)).unwrap();
    assert_eq!(mux.current_tab(), Some(first));
    mux.dispatch(Command::CloseTab(second)).unwrap();
    assert_eq!(mux.current_tab(), Some(first));

    let CommandResult::Tab(third) = mux.dispatch(Command::NewTab).unwrap() else {
        panic!("new tab did not return a tab");
    };
    mux.dispatch(Command::CloseTab(third)).unwrap();
    assert_eq!(mux.current_tab(), Some(first));
    assert_eq!(mux.tabs(mux.current_window().unwrap()), Some(&[first][..]));
}

#[test]
fn lifecycle_events_preserve_command_order() {
    let mut mux = Mux::new();
    let first_pane = mux.current_pane().unwrap();
    let CommandResult::Tab(tab) = mux.dispatch(Command::NewTab).unwrap() else {
        panic!("new tab did not return a tab");
    };
    let created_pane = mux.current_pane().unwrap();
    assert_eq!(
        mux.drain_events(),
        vec![
            Event::TabCreated { tab },
            Event::PaneCreated { pane: created_pane },
            Event::PaneFocused { pane: created_pane },
        ]
    );

    mux.dispatch(Command::CloseTab(tab)).unwrap();
    assert_eq!(
        mux.drain_events(),
        vec![
            Event::PaneClosed { pane: created_pane },
            Event::TabClosed { tab },
            Event::PaneFocused { pane: first_pane },
        ]
    );
}

#[test]
fn window_commands_cover_create_activate_tab_and_close_lifecycle() {
    let mut mux = Mux::new();
    let workspace = mux.current_workspace();
    let first = mux.current_window().unwrap();
    assert_eq!(
        mux.dispatch(Command::CloseWindow(first)),
        Err(MuxError::CannotCloseLastWindow(first))
    );

    let CommandResult::Window(second) = mux.dispatch(Command::CreateWindow(workspace)).unwrap()
    else {
        panic!("create window did not return a window");
    };
    assert_eq!(mux.current_window(), Some(second));
    assert_eq!(mux.workspace_windows(workspace), Some(&[first, second][..]));

    let CommandResult::Tab(second_tab) = mux.dispatch(Command::NewTabIn(second)).unwrap()
    else {
        panic!("new tab did not return a tab");
    };
    assert_eq!(mux.current_tab(), Some(second_tab));
    mux.dispatch(Command::ActivateWindow(first)).unwrap();
    assert_eq!(mux.current_window(), Some(first));

    mux.dispatch(Command::CloseWindow(second)).unwrap();
    assert_eq!(mux.workspace_windows(workspace), Some(&[first][..]));
    assert!(!mux.native_handles().contains(&NativeHandle::from(second)));
}

#[test]
fn native_handle_snapshot_drops_closed_ids() {
    let mut mux = Mux::new();
    let first = mux.current_pane().unwrap();
    let CommandResult::Pane(second) = mux
        .dispatch(Command::Split {
            pane: first,
            direction: SplitDirection::Right,
        })
        .unwrap()
    else {
        panic!("split did not return a pane");
    };
    assert!(mux.native_handles().contains(&NativeHandle::from(second)));

    mux.dispatch(Command::ClosePane(second)).unwrap();
    assert!(!mux.native_handles().contains(&NativeHandle::from(second)));
    assert!(mux.native_handles().contains(&NativeHandle::from(first)));
}

#[test]
fn toggling_zoom_twice_restores_the_tab() {
    let mut mux = Mux::new();
    let pane = mux.current_pane().unwrap();
    let tab = mux.current_tab().unwrap();
    mux.dispatch(Command::Split {
        pane,
        direction: SplitDirection::Right,
    })
    .unwrap();
    assert_eq!(mux.zoomed_pane(tab), None);
    mux.dispatch(Command::ToggleZoom).unwrap();
    assert_eq!(mux.zoomed_pane(tab), mux.current_pane());
    mux.dispatch(Command::ToggleZoom).unwrap();
    assert_eq!(mux.zoomed_pane(tab), None);
}

#[test]
fn commands_on_unknown_ids_are_refused_with_their_error() {
    let mut mux = Mux::new();
    let missing = toyoterm::api::PaneId(999);
    assert_eq!(
        mux.dispatch(Command::ActivatePane(missing)),
        Err(MuxError::UnknownPane(missing))
    );
    assert_eq!(
        mux.take_pending_input(missing),
        Err(MuxError::UnknownPane(missing))
    );
    assert_eq!(mux.close_exited_pane(missing), Err(MuxError::UnknownPane(missing)));
}
