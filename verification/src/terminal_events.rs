//! Which reports of a pane's terminal become events for scripts.
use vstd::prelude::*;
use crate::api::{PaneId, ScriptEventKind};
use crate::pty::opt_view;
use crate::notify::{NotificationIcon, NotificationSound, NotificationUrgency};
use crate::script_queue::RubyEvent;
use crate::session::{
    NotificationOccasion, NotificationReporting, SessionStatusUpdate, TabColorComponent,
    TerminalProgress,
};
use crate::text::{decimal, push_decimal, push_str};

verus! {

/// A request for the user's attention.
#[derive(Clone, Copy, Debug, PartialEq, Eq, Structural)]
pub enum TerminalAttention {
    Indefinite,
    Once,
    Cancel,
    Fireworks,
}

/// A desktop notification that a program asked for.
#[derive(Clone, Debug, PartialEq, Eq)]
pub struct NotificationRequest {
    pub id: Option<String>,
    pub title: Option<String>,
    pub body: String,
    pub occasion: NotificationOccasion,
    pub urgency: NotificationUrgency,
    pub timeout_ms: Option<u32>,
    pub sound: NotificationSound,
    pub icon_name: Option<String>,
    pub icon: Option<NotificationIcon>,
    pub buttons: Vec<String>,
    pub reporting: NotificationReporting,
}

/// What a pane's terminal reports after parsing the program's output. The
/// colour reports carry nothing here: the terminal answers them itself.
#[derive(Clone, Debug, PartialEq, Eq)]
pub enum TerminalEvent {
    TitleChanged(String),
    TitleReset,
    IconTitleChanged(String),
    CwdChanged(String),
    RemoteHostChanged(String),
    ShellIntegrationChanged { version: u32, shell: Option<String> },
    ItermVariableQuery(String),
    ItermBadgeFormatChanged(String),
    CursorLineHighlightChanged(bool),
    AttentionRequested(TerminalAttention),
    OpenUrlRequested(String),
    UserVarChanged { name: String, value: String },
    MarkSet,
    PromptStarted,
    CommandLineStarted,
    CommandStarted,
    CommandFinished(Option<i32>),
    CapturedOutputCleared,
    /// A program asked for the mouse pointer shape with this name.
    MouseCursorChanged(String),
    MouseCursorControl,
    ColorControl,
    ItermDefaultColorQuery,
    XtermSpecialColorSet,
    XtermSpecialColorQuery,
    XtermSpecialColorReset,
    XtermSpecialColorMode,
    ItermUiColorChanged,
    ItermUiColorReset,
    ItermUiColorQuery,
    ColorStackPush,
    ColorStackPop,
    TabColorChanged { component: TabColorComponent, value: u8 },
    TabColorSet([u8; 3]),
    TabColorReset,
    SessionStatusChanged(SessionStatusUpdate),
    ProgressChanged(TerminalProgress),
    ClipboardStore(String),
    ClipboardCaptureStart,
    ClipboardCaptureEnd,
    Notification(NotificationRequest),
    NotificationClose(String),
    NotificationAliveQuery(String),
    PtyWrite(String),
    Bell { visual_bell: Option<[u8; 3]> },
}

/// The event scripts hear of `event` in `pane`: its kind, and the title,
/// directory and exit status it carries; none for reports scripts are not
/// told of.
pub open spec fn script_event(pane: PaneId, event: TerminalEvent) -> Option<
    (ScriptEventKind, Option<Seq<char>>, Option<Seq<char>>, Option<i32>),
> {
    match event {
        TerminalEvent::TitleChanged(title) => Some(
            (ScriptEventKind::TitleChanged, Some(title@), None, None),
        ),
        TerminalEvent::TitleReset => Some(
            (ScriptEventKind::TitleChanged, Some("Pane "@ + decimal(pane.0 as nat)), None, None),
        ),
        TerminalEvent::CwdChanged(cwd) => Some((ScriptEventKind::CwdChanged, None, Some(cwd@), None)),
        TerminalEvent::PromptStarted => Some((ScriptEventKind::PromptStarted, None, None, None)),
        TerminalEvent::CommandLineStarted => Some(
            (ScriptEventKind::CommandLineStarted, None, None, None),
        ),
        TerminalEvent::CommandStarted => Some((ScriptEventKind::CommandStarted, None, None, None)),
        TerminalEvent::CommandFinished(status) => Some(
            (ScriptEventKind::CommandFinished, None, None, status),
        ),
        TerminalEvent::Bell { .. } => Some((ScriptEventKind::Bell, None, None, None)),
        _ => None,
    }
}

/// Whether `r` is the event that scripts hear of `event` in `pane`: none
/// when they are not told of it, and otherwise one that names the pane and
/// nothing else and carries the title, directory or exit status of the
/// report.
pub open spec fn is_script_event_for(r: Option<RubyEvent>, pane: PaneId, event: TerminalEvent) -> bool {
    match script_event(pane, event) {
        Some((kind, title, cwd, status)) => r matches Some(e) && e.kind == kind && e.pane == Some(
            pane,
        ) && e.workspace is None && e.window is None && e.tab is None && opt_view(e.title)
            == title && opt_view(e.cwd) == cwd && e.exit_status == status,
        None => r is None,
    }
}

/// The event scripts hear of `event` in `pane`, if they hear of it: it
/// names the pane and nothing else, and carries the title, directory or
/// exit status of the report.
pub fn ruby_event_from_terminal_event(pane: PaneId, event: TerminalEvent) -> (r: Option<RubyEvent>)
    ensures
        is_script_event_for(r, pane, event),
{
    script_event_of(pane, &event)
}

/// The event scripts hear of `event` in `pane`, leaving the report itself
/// as it is.
pub(crate) fn script_event_of(pane: PaneId, event: &TerminalEvent) -> (r: Option<RubyEvent>)
    ensures
        is_script_event_for(r, pane, *event),
{
    let mut e = match event {
        TerminalEvent::TitleChanged(title) => {
            let mut e = RubyEvent::new(ScriptEventKind::TitleChanged);
            e.title = Some(title.clone());
            e
        },
        TerminalEvent::TitleReset => {
            let mut e = RubyEvent::new(ScriptEventKind::TitleChanged);
            let mut title = String::new();
            push_str(&mut title, "Pane ");
            push_decimal(&mut title, pane.0 as u128);
            proof {
                assert(title@ =~= "Pane "@ + decimal(pane.0 as nat));
            }
            e.title = Some(title);
            e
        },
        TerminalEvent::CwdChanged(cwd) => {
            let mut e = RubyEvent::new(ScriptEventKind::CwdChanged);
            e.cwd = Some(cwd.clone());
            e
        },
        TerminalEvent::PromptStarted => RubyEvent::new(ScriptEventKind::PromptStarted),
        TerminalEvent::CommandLineStarted => RubyEvent::new(ScriptEventKind::CommandLineStarted),
        TerminalEvent::CommandStarted => RubyEvent::new(ScriptEventKind::CommandStarted),
        TerminalEvent::CommandFinished(status) => {
            let mut e = RubyEvent::new(ScriptEventKind::CommandFinished);
            e.exit_status = *status;
            e
        },
        TerminalEvent::Bell { .. } => RubyEvent::new(ScriptEventKind::Bell),
        _ => {
            return None;
        },
    };
    e.pane = Some(pane);
    Some(e)
}

} // verus!
