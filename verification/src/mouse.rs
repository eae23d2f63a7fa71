//! What a mouse button press or release does in the window: leaving visual
//! mode and search, answering the configuration notice, activating the
//! workspace, tab or pane under the pointer, opening a link, selecting text,
//! or reporting the button to a program that asked for mouse reports.
//!
//! The window finds what lies under the pointer; the decisions are made here
//! in two steps, around the activation of the pane under the pointer.
use vstd::prelude::*;
use crate::api::{PaneId, TabId, WorkspaceId};
use crate::keys::{terminal_mouse_button, MouseButton, TerminalMouseButton};
use crate::session::{click_count, ClickTarget, ClickTracker};

verus! {

/// The part of the window's chrome under the pointer, if any, by priority:
/// the configuration notice (reported only while one is shown), then a
/// workspace, then a tab.
#[derive(Clone, Copy, Debug, PartialEq, Eq, Structural)]
pub enum ChromeHit {
    /// The configuration error notice, and whether the pointer is on its
    /// button that opens the log or on the one that dismisses it.
    ConfigNotice { open_log: bool, dismiss: bool },
    Workspace(WorkspaceId),
    Tab(TabId),
    Nothing,
}

/// What has the focus before the press.
#[derive(Clone, Copy, Debug, PartialEq, Eq, Structural)]
pub struct CurrentFocus {
    pub workspace: WorkspaceId,
    pub tab: Option<TabId>,
    pub pane: Option<PaneId>,
}

/// A press or release of a mouse button, and what goes with it.
#[derive(Clone, Copy, Debug, PartialEq, Eq, Structural)]
pub struct MouseInput {
    pub button: MouseButton,
    /// Pressed, or else released.
    pub pressed: bool,
    /// The modifier that makes a click open a link is held.
    pub link_modifier: bool,
    pub shift: bool,
    /// The program in the active pane asked for mouse reports.
    pub mouse_reporting: bool,
    /// Selected text is copied as soon as the selection ends.
    pub copy_on_select: bool,
    /// The cell under the pointer in the active pane.
    pub column: u16,
    pub row: u16,
    /// The time of the event, in milliseconds.
    pub now: u64,
}

/// What the window keeps about the mouse and the overlays it closes.
#[derive(Clone, Copy, Debug, PartialEq, Eq)]
pub struct MouseUiState {
    pub visual_mode: bool,
    pub search_open: bool,
    /// The configuration error notice, if one is shown: whether its log is
    /// expanded.
    pub config_notice: Option<bool>,
    /// A selection is being dragged.
    pub selecting: bool,
    /// The button reported as pressed to the program.
    pub pressed_button: Option<TerminalMouseButton>,
    /// The cell of the last press reported to the program.
    pub last_mouse_cell: Option<(u16, u16)>,
    pub clicks: ClickTracker,
}

/// How much a new selection takes in.
#[derive(Clone, Copy, Debug, PartialEq, Eq, Structural)]
pub enum SelectionKind {
    Simple,
    Word,
    Line,
}

/// What the application does for a mouse button, in order.
#[derive(Clone, Debug, PartialEq, Eq)]
pub enum MouseStep {
    ExitVisualMode,
    /// Close the search bar and redraw.
    CloseSearch,
    /// The configuration notice changed size or went away: lay the panes
    /// out again and redraw.
    RelayoutForNotice,
    ActivateWorkspace(WorkspaceId),
    ActivateTab(TabId),
    /// Focus this pane; when that fails, nothing more happens.
    ActivatePane(PaneId),
    OpenUrl(String),
    /// Move the end of the selection to this cell.
    UpdateSelection { column: u16, row: u16 },
    CopySelection,
    ReportPress { button: TerminalMouseButton, column: u16, row: u16 },
    ReportRelease { button: TerminalMouseButton, column: u16, row: u16 },
    /// Clear the selection and start a new one at this cell.
    StartSelection { column: u16, row: u16, kind: SelectionKind },
    Redraw,
}

/// The selection that the `count`-th click in a row starts.
pub open spec fn selection_kind(count: u8) -> SelectionKind {
    if count == 2 {
        SelectionKind::Word
    } else if count == 3 {
        SelectionKind::Line
    } else {
        SelectionKind::Simple
    }
}

/// The terminal's name for a button, if it has one.
pub open spec fn reported_button(button: MouseButton) -> Option<TerminalMouseButton> {
    match button {
        MouseButton::Left => Some(TerminalMouseButton::Left),
        MouseButton::Middle => Some(TerminalMouseButton::Middle),
        MouseButton::Right => Some(TerminalMouseButton::Right),
        _ => None,
    }
}

/// The first step of a press or release, up to the activation of the pane
/// under the pointer: the new state, the steps, and whether to go on with
/// [`finish_steps`] once they are done.
///
/// A left press leaves visual mode and closes search; then, by priority, a
/// press on a shown configuration notice toggles its log or dismisses it and
/// ends there; a press on a workspace or a tab activates it (unless it is
/// already active) and ends there; otherwise the pane under the pointer is
/// activated (unless it is already). Another press only activates the pane
/// under the pointer. A press outside every pane ends there. A release goes
/// straight on.
pub open spec fn begin_steps(
    ui: MouseUiState,
    chrome: ChromeHit,
    hovered: Option<PaneId>,
    focus: CurrentFocus,
    input: MouseInput,
) -> (MouseUiState, Seq<MouseStep>, bool) {
    let left_press = input.button == MouseButton::Left && input.pressed;
    let ui1 = if left_press && ui.visual_mode {
        MouseUiState { visual_mode: false, ..ui }
    } else {
        ui
    };
    let s1 = if left_press && ui.visual_mode {
        seq![MouseStep::ExitVisualMode]
    } else {
        Seq::empty()
    };
    let ui2 = if left_press && ui1.search_open {
        MouseUiState { search_open: false, ..ui1 }
    } else {
        ui1
    };
    let s2 = if left_press && ui1.search_open {
        s1.push(MouseStep::CloseSearch)
    } else {
        s1
    };
    let focus_hovered = match hovered {
        None => (ui2, s2, false),
        Some(p) => (
            ui2,
            if focus.pane == Some(p) {
                s2
            } else {
                s2.push(MouseStep::ActivatePane(p))
            },
            true,
        ),
    };
    if !input.pressed {
        (ui, Seq::empty(), true)
    } else if !left_press {
        focus_hovered
    } else {
        match chrome {
            ChromeHit::ConfigNotice { open_log, dismiss } => match ui2.config_notice {
                Some(expanded) => (
                    MouseUiState {
                        config_notice: if dismiss {
                            None
                        } else if open_log {
                            Some(!expanded)
                        } else {
                            Some(expanded)
                        },
                        ..ui2
                    },
                    if open_log || dismiss {
                        s2.push(MouseStep::RelayoutForNotice)
                    } else {
                        s2
                    },
                    false,
                ),
                None => focus_hovered,
            },
            ChromeHit::Workspace(w) => (
                ui2,
                if focus.workspace == w {
                    s2
                } else {
                    s2.push(MouseStep::ActivateWorkspace(w))
                },
                false,
            ),
            ChromeHit::Tab(t) => (
                ui2,
                if focus.tab == Some(t) {
                    s2
                } else {
                    s2.push(MouseStep::ActivateTab(t))
                },
                false,
            ),
            ChromeHit::Nothing => focus_hovered,
        }
    }
}

/// The second step, once the pane under the pointer is active: a left
/// press with the link modifier on a link opens it; otherwise a release
/// ends a dragged selection (copying it when asked to); a program that asked
/// for mouse reports (and no shift held) is told of the button; a release of
/// a button reported as pressed is reported; and a left press starts a
/// selection, of a word on a double click and of a line on a triple one.
pub open spec fn finish_steps(
    ui: MouseUiState,
    hovered: Option<PaneId>,
    input: MouseInput,
    link: Option<String>,
) -> (MouseUiState, Seq<MouseStep>) {
    let left_press = input.button == MouseButton::Left && input.pressed;
    let column = input.column;
    let row = input.row;
    if left_press && input.link_modifier && link is Some {
        (ui, seq![MouseStep::OpenUrl(link->0)])
    } else if ui.selecting {
        if input.pressed {
            (ui, Seq::empty())
        } else {
            (
                MouseUiState { selecting: false, ..ui },
                seq![MouseStep::UpdateSelection { column, row }] + (if input.copy_on_select {
                    seq![MouseStep::CopySelection]
                } else {
                    Seq::empty()
                }) + seq![MouseStep::Redraw],
            )
        }
    } else if input.mouse_reporting && !input.shift {
        if input.pressed {
            match reported_button(input.button) {
                Some(button) => (
                    MouseUiState {
                        pressed_button: Some(button),
                        last_mouse_cell: Some((column, row)),
                        ..ui
                    },
                    seq![MouseStep::ReportPress { button, column, row }],
                ),
                None => (ui, Seq::empty()),
            }
        } else {
            let released = match reported_button(input.button) {
                Some(button) => Some(button),
                None => ui.pressed_button,
            };
            (
                MouseUiState { pressed_button: None, ..ui },
                match released {
                    Some(button) => seq![MouseStep::ReportRelease { button, column, row }],
                    None => Seq::empty(),
                },
            )
        }
    } else if !input.pressed && ui.pressed_button is Some {
        (
            MouseUiState { pressed_button: None, ..ui },
            seq![MouseStep::ReportRelease { button: ui.pressed_button->0, column, row }],
        )
    } else if left_press && hovered is Some {
        let target = ClickTarget { pane: hovered->0, column, row };
        let count = click_count(ui.clicks.previous, input.now, target);
        (
            MouseUiState {
                clicks: ClickTracker { previous: Some((input.now, target, count)) },
                selecting: true,
                ..ui
            },
            seq![
                MouseStep::StartSelection { column, row, kind: selection_kind(count) },
                MouseStep::Redraw,
            ],
        )
    } else {
        (ui, Seq::empty())
    }
}

/// Takes in a press or release up to the activation of the pane under the
/// pointer (`hovered`), given what of the chrome lies under it. The
/// application performs the steps in order and, when the result says so and
/// every activation succeeded, goes on with [`finish_mouse_input`].
pub fn begin_mouse_input(
    ui: &mut MouseUiState,
    chrome: ChromeHit,
    hovered: Option<PaneId>,
    focus: CurrentFocus,
    input: MouseInput,
) -> (r: (Vec<MouseStep>, bool))
    ensures
        (*final(ui), r.0@, r.1) == begin_steps(*old(ui), chrome, hovered, focus, input),
{
    let mut steps: Vec<MouseStep> = Vec::new();
    if !input.pressed {
        return (steps, true);
    }
    let left_press = match input.button {
        MouseButton::Left => true,
        _ => false,
    };
    if left_press {
        if ui.visual_mode {
            ui.visual_mode = false;
            steps.push(MouseStep::ExitVisualMode);
        }
        if ui.search_open {
            ui.search_open = false;
            steps.push(MouseStep::CloseSearch);
        }
        match chrome {
            ChromeHit::ConfigNotice { open_log, dismiss } => {
                match ui.config_notice {
                    Some(expanded) => {
                        if dismiss {
                            ui.config_notice = None;
                        } else if open_log {
                            ui.config_notice = Some(!expanded);
                        }
                        if open_log || dismiss {
                            steps.push(MouseStep::RelayoutForNotice);
                        }
                        return (steps, false);
                    },
                    None => {},
                }
            },
            ChromeHit::Workspace(w) => {
                if focus.workspace != w {
                    steps.push(MouseStep::ActivateWorkspace(w));
                }
                return (steps, false);
            },
            ChromeHit::Tab(t) => {
                let active = match focus.tab {
                    Some(current) => current == t,
                    None => false,
                };
                if !active {
                    steps.push(MouseStep::ActivateTab(t));
                }
                return (steps, false);
            },
            ChromeHit::Nothing => {},
        }
    }
    match hovered {
        None => (steps, false),
        Some(p) => {
            let active = match focus.pane {
                Some(current) => current == p,
                None => false,
            };
            if !active {
                steps.push(MouseStep::ActivatePane(p));
            }
            (steps, true)
        },
    }
}

fn selection_kind_of(count: u8) -> (r: SelectionKind)
    ensures
        r == selection_kind(count),
{
    if count == 2 {
        SelectionKind::Word
    } else if count == 3 {
        SelectionKind::Line
    } else {
        SelectionKind::Simple
    }
}

/// Finishes a press or release once the pane under the pointer is active;
/// `link` is the link at the pointer's cell in that pane, if any.
pub fn finish_mouse_input(
    ui: &mut MouseUiState,
    hovered: Option<PaneId>,
    input: MouseInput,
    link: Option<String>,
) -> (steps: Vec<MouseStep>)
    ensures
        (*final(ui), steps@) == finish_steps(*old(ui), hovered, input, link),
{
    let mut steps: Vec<MouseStep> = Vec::new();
    let left_press = input.pressed && match input.button {
        MouseButton::Left => true,
        _ => false,
    };
    let column = input.column;
    let row = input.row;
    if left_press && input.link_modifier {
        match link {
            Some(url) => {
                steps.push(MouseStep::OpenUrl(url));
                return steps;
            },
            None => {},
        }
    }
    if ui.selecting {
        if !input.pressed {
            ui.selecting = false;
            steps.push(MouseStep::UpdateSelection { column, row });
            if input.copy_on_select {
                steps.push(MouseStep::CopySelection);
            }
            steps.push(MouseStep::Redraw);
        }
        return steps;
    }
    if input.mouse_reporting && !input.shift {
        let button = terminal_mouse_button(input.button);
        if input.pressed {
            match button {
                Some(b) => {
                    ui.pressed_button = Some(b);
                    ui.last_mouse_cell = Some((column, row));
                    steps.push(MouseStep::ReportPress { button: b, column, row });
                },
                None => {},
            }
        } else {
            let released = match button {
                Some(b) => Some(b),
                None => ui.pressed_button,
            };
            ui.pressed_button = None;
            match released {
                Some(b) => steps.push(MouseStep::ReportRelease { button: b, column, row }),
                None => {},
            }
        }
        return steps;
    }
    if !input.pressed {
        match ui.pressed_button {
            Some(b) => {
                ui.pressed_button = None;
                steps.push(MouseStep::ReportRelease { button: b, column, row });
                return steps;
            },
            None => {},
        }
    }
    if left_press {
        match hovered {
            Some(pane) => {
                let count = ui.clicks.register(input.now, ClickTarget { pane, column, row });
                ui.selecting = true;
                steps.push(MouseStep::StartSelection { column, row, kind: selection_kind_of(count) });
                steps.push(MouseStep::Redraw);
            },
            None => {},
        }
    }
    proof {
        assert(steps@ =~= finish_steps(*old(ui), hovered, input, link).1);
    }
    steps
}

} // verus!
