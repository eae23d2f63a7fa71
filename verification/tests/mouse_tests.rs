use toyoterm::api::{PaneId, TabId, WorkspaceId};
use toyoterm::keys::{MouseButton, TerminalMouseButton};
use toyoterm::mouse::{
    begin_mouse_input, finish_mouse_input, ChromeHit, CurrentFocus, MouseInput, MouseStep,
    MouseUiState, SelectionKind,
};
use toyoterm::session::ClickTracker;

fn ui() -> MouseUiState {
    MouseUiState {
        visual_mode: false,
        search_open: false,
        config_notice: None,
        selecting: false,
        pressed_button: None,
        last_mouse_cell: None,
        clicks: ClickTracker::new(),
    }
}

fn focus() -> CurrentFocus {
    CurrentFocus { workspace: WorkspaceId(1), tab: Some(TabId(3)), pane: Some(PaneId(4)) }
}

fn press(button: MouseButton, now: u64) -> MouseInput {
    MouseInput {
        button,
        pressed: true,
        link_modifier: false,
        shift: false,
        mouse_reporting: false,
        copy_on_select: false,
        column: 5,
        row: 6,
        now,
    }
}

fn release(button: MouseButton) -> MouseInput {
    MouseInput { pressed: false, ..press(button, 0) }
}

#[test]
fn a_left_press_leaves_visual_mode_and_search_first() {
    let mut state = MouseUiState { visual_mode: true, search_open: true, ..ui() };
    let (steps, go_on) =
        begin_mouse_input(&mut state, ChromeHit::Nothing, Some(PaneId(4)), focus(), press(MouseButton::Left, 0));
    assert_eq!(steps, vec![MouseStep::ExitVisualMode, MouseStep::CloseSearch]);
    assert!(go_on);
    assert!(!state.visual_mode && !state.search_open);
}

#[test]
fn the_config_notice_toggles_its_log_or_is_dismissed() {
    let mut state = MouseUiState { config_notice: Some(false), ..ui() };
    let hit = ChromeHit::ConfigNotice { open_log: true, dismiss: false };
    let (steps, go_on) = begin_mouse_input(&mut state, hit, Some(PaneId(4)), focus(), press(MouseButton::Left, 0));
    assert_eq!(steps, vec![MouseStep::RelayoutForNotice]);
    assert!(!go_on);
    assert_eq!(state.config_notice, Some(true));
    let hit = ChromeHit::ConfigNotice { open_log: false, dismiss: true };
    begin_mouse_input(&mut state, hit, None, focus(), press(MouseButton::Left, 0));
    assert_eq!(state.config_notice, None);
    let hit = ChromeHit::ConfigNotice { open_log: false, dismiss: false };
    let mut shown = MouseUiState { config_notice: Some(false), ..ui() };
    let (steps, go_on) = begin_mouse_input(&mut shown, hit, None, focus(), press(MouseButton::Left, 0));
    assert!(steps.is_empty() && !go_on);
}

#[test]
fn clicking_a_workspace_or_tab_activates_it() {
    let mut state = ui();
    let (steps, go_on) = begin_mouse_input(
        &mut state,
        ChromeHit::Workspace(WorkspaceId(2)),
        None,
        focus(),
        press(MouseButton::Left, 0),
    );
    assert_eq!(steps, vec![MouseStep::ActivateWorkspace(WorkspaceId(2))]);
    assert!(!go_on);
    let (steps, _) =
        begin_mouse_input(&mut state, ChromeHit::Tab(TabId(3)), None, focus(), press(MouseButton::Left, 0));
    assert!(steps.is_empty());
    let (steps, _) =
        begin_mouse_input(&mut state, ChromeHit::Tab(TabId(9)), None, focus(), press(MouseButton::Left, 0));
    assert_eq!(steps, vec![MouseStep::ActivateTab(TabId(9))]);
}

#[test]
fn clicks_focus_the_pane_and_select_words_and_lines() {
    let mut state = ui();
    let (steps, go_on) =
        begin_mouse_input(&mut state, ChromeHit::Nothing, Some(PaneId(8)), focus(), press(MouseButton::Left, 100));
    assert_eq!(steps, vec![MouseStep::ActivatePane(PaneId(8))]);
    assert!(go_on);
    let steps = finish_mouse_input(&mut state, Some(PaneId(8)), press(MouseButton::Left, 100), None);
    assert_eq!(
        steps,
        vec![
            MouseStep::StartSelection { column: 5, row: 6, kind: SelectionKind::Simple },
            MouseStep::Redraw
        ]
    );
    assert!(state.selecting);
    let steps = finish_mouse_input(&mut state, Some(PaneId(8)), release(MouseButton::Left), None);
    assert_eq!(steps, vec![MouseStep::UpdateSelection { column: 5, row: 6 }, MouseStep::Redraw]);
    assert!(!state.selecting);
    let steps = finish_mouse_input(&mut state, Some(PaneId(8)), press(MouseButton::Left, 200), None);
    assert!(matches!(steps[0], MouseStep::StartSelection { kind: SelectionKind::Word, .. }));
    state.selecting = false;
    let steps = finish_mouse_input(&mut state, Some(PaneId(8)), press(MouseButton::Left, 300), None);
    assert!(matches!(steps[0], MouseStep::StartSelection { kind: SelectionKind::Line, .. }));
}

#[test]
fn the_link_modifier_opens_the_link_under_the_pointer() {
    let mut state = ui();
    let input = MouseInput { link_modifier: true, ..press(MouseButton::Left, 0) };
    let steps = finish_mouse_input(&mut state, Some(PaneId(4)), input, Some("https://example.com".to_string()));
    assert_eq!(steps, vec![MouseStep::OpenUrl("https://example.com".to_string())]);
    assert!(!state.selecting);
}

#[test]
fn programs_that_ask_for_mouse_reports_hear_of_buttons() {
    let mut state = ui();
    let input = MouseInput { mouse_reporting: true, ..press(MouseButton::Right, 0) };
    let (steps, go_on) = begin_mouse_input(&mut state, ChromeHit::Nothing, Some(PaneId(4)), focus(), input);
    assert!(steps.is_empty() && go_on);
    let steps = finish_mouse_input(&mut state, Some(PaneId(4)), input, None);
    assert_eq!(
        steps,
        vec![MouseStep::ReportPress { button: TerminalMouseButton::Right, column: 5, row: 6 }]
    );
    assert_eq!(state.pressed_button, Some(TerminalMouseButton::Right));
    let up = MouseInput { mouse_reporting: false, ..release(MouseButton::Back) };
    let steps = finish_mouse_input(&mut state, Some(PaneId(4)), up, None);
    assert_eq!(
        steps,
        vec![MouseStep::ReportRelease { button: TerminalMouseButton::Right, column: 5, row: 6 }]
    );
    assert_eq!(state.pressed_button, None);
}

#[test]
fn a_press_outside_every_pane_does_nothing_more() {
    let mut state = ui();
    let (steps, go_on) =
        begin_mouse_input(&mut state, ChromeHit::Nothing, None, focus(), press(MouseButton::Middle, 0));
    assert!(steps.is_empty() && !go_on);
}
