//! What a pane does with the reports of its terminal: the protocol state it
//! keeps for the program that runs in it, and what it asks of the
//! application (writes to the program, URLs, clipboard copies, desktop
//! notifications, attention hints and events for scripts).
use vstd::prelude::*;
use vstd::utf8::encode_utf8;
use crate::api::PaneId;
use crate::keys::url_verdict;
use crate::notify::DesktopNotification;
use crate::pty::opt_view;
use crate::script_queue::RubyEvent;
use crate::session::{
    alive_report, apply_terminal_progress, feedback_report, has_id, notification_alive_response,
    notification_feedback_response, NotificationFeedback,
    notification_expiry, notification_occasion_matches, notification_platform_id, platform_id,
    progress_value, should_open_osc_url, still_alive, visual_bell_deadline, ActiveNotifications,
    NotificationOccasion, SessionStatusState, TabColorComponent, TabColorState, TerminalProgress,
    OSC_OPEN_URL_INTERVAL_MS, OSC_VISUAL_BELL_DURATION_MS,
};
use crate::terminal_events::{
    is_script_event_for, script_event, script_event_of, NotificationRequest, TerminalAttention,
    TerminalEvent,
};
use crate::text::{decimal, push_decimal, push_str};
use crate::variables::{badge, variable_report, variable_value, SessionVariables, MAX_OSC_USER_VARS};

verus! {

/// The shortest time, in milliseconds, between two desktop notifications
/// of one pane.
pub const OSC_NOTIFICATION_INTERVAL_MS: u64 = 2000;

/// How long, in milliseconds, the cursor fireworks last.
pub const OSC_CURSOR_FIREWORKS_DURATION_MS: u64 = 350;

/// The most notification ids one pane keeps track of.
pub const MAX_TRACKED_NOTIFICATION_IDS: usize = 32;

/// What the user allows programs to do, and where their pane stands.
#[derive(Clone, Copy, Debug, PartialEq, Eq, Structural)]
pub struct OutputPolicy {
    pub allow_notifications: bool,
    pub allow_attention: bool,
    pub allow_open_url: bool,
    /// The pane has the keyboard focus in a focused window.
    pub source_focused: bool,
    /// The pane is shown in a focused window.
    pub source_visible: bool,
    /// The longest variable name, in bytes, that a badge may name.
    pub variable_name_limit: usize,
}

/// What a pane keeps of the protocols its program speaks. Times are
/// milliseconds on one monotonic clock.
pub struct PaneProtocolState {
    /// The title, directory, shell, host, user variables and badge.
    pub variables: SessionVariables,
    pub cursor_line_highlight: bool,
    pub shell_integration_version: Option<u32>,
    pub command_running: bool,
    pub last_exit_status: Option<i32>,
    pub progress: Option<TerminalProgress>,
    pub tab_color: TabColorState,
    pub session_status: SessionStatusState,
    /// The name of the mouse pointer shape the program asked for.
    pub mouse_cursor: Option<String>,
    pub last_notification_at: Option<u64>,
    pub active_notifications: ActiveNotifications,
    pub last_open_url_at: Option<u64>,
    pub visual_bell_deadline: Option<u64>,
    pub cursor_fireworks_deadline: Option<u64>,
}

impl PaneProtocolState {
    /// The tracked notifications are kept in order of their ids.
    pub open spec fn wf(&self) -> bool {
        self.active_notifications.wf()
    }
}

/// What the application is asked to do for a report of a pane's terminal.
#[derive(Clone, Debug)]
pub enum PaneAction {
    /// Write these bytes to the pane's program.
    WritePty(String),
    OpenUrl(String),
    CopyToClipboard(String),
    ShowNotification(DesktopNotification),
    /// Close the desktop notification with this platform id.
    CloseNotification(u32),
    RequestAttention(TerminalAttention),
    /// Show the mouse pointer shape the pane now asks for.
    UpdateMouseCursor,
    /// Deliver this event to scripts.
    ScriptEvent(RubyEvent),
}

/// The time from `last` to `now`; none when the clock went back.
pub open spec fn elapsed(last: u64, now: u64) -> int {
    if now >= last {
        now - last
    } else {
        0
    }
}

/// Whether the last notification, if any, was shown long enough ago.
pub open spec fn interval_passed(last: Option<u64>, now: u64) -> bool {
    match last {
        None => true,
        Some(last) => elapsed(last, now) >= OSC_NOTIFICATION_INTERVAL_MS,
    }
}

/// Whether a notification for `occasion` is wanted now.
pub open spec fn occasion_holds(occasion: NotificationOccasion, focused: bool, visible: bool) -> bool {
    match occasion {
        NotificationOccasion::Always => true,
        NotificationOccasion::Unfocused => !focused,
        NotificationOccasion::Invisible => !visible,
    }
}

/// Whether `request` is shown: notifications are allowed, its occasion
/// holds, and no notification of the pane was shown in the last interval.
pub open spec fn shows_notification(
    state: PaneProtocolState,
    request: NotificationRequest,
    policy: OutputPolicy,
    now: u64,
) -> bool {
    &&& policy.allow_notifications
    &&& occasion_holds(request.occasion, policy.source_focused, policy.source_visible)
    &&& interval_passed(state.last_notification_at, now)
}

/// When a notification shown at `now` with `timeout_ms` expires.
pub open spec fn expiry(timeout_ms: Option<u32>, now: u64) -> Option<u64> {
    match timeout_ms {
        Some(timeout) => if timeout > 0 && now + timeout <= u64::MAX {
            Some((now + timeout) as u64)
        } else {
            None
        },
        None => None,
    }
}

/// `after` is `before` with `id` expiring at `deadline`: in its place when
/// it was tracked, otherwise added.
pub open spec fn with_entry(
    before: Seq<(Seq<char>, Option<u64>)>,
    after: Seq<(Seq<char>, Option<u64>)>,
    id: Seq<char>,
    deadline: Option<u64>,
) -> bool {
    &&& has_id(before, id) ==> exists|i: int|
        0 <= i < before.len() && before[i].0 == id && after == before.update(i, (id, deadline))
    &&& !has_id(before, id) ==> exists|p: int|
        0 <= p <= before.len() && after == before.insert(p, (id, deadline))
}

/// The tracked notifications after one with `id` was shown: an id is
/// tracked when it already is or fewer than the most are.
pub open spec fn tracked_after(
    before: Seq<(Seq<char>, Option<u64>)>,
    after: Seq<(Seq<char>, Option<u64>)>,
    id: Option<String>,
    deadline: Option<u64>,
) -> bool {
    match id {
        Some(id) => if has_id(before, id@) || before.len() < MAX_TRACKED_NOTIFICATION_IDS {
            with_entry(before, after, id@, deadline)
        } else {
            after == before
        },
        None => after == before,
    }
}

/// `n` is the desktop notification for `request` of `pane`: its protocol
/// id is the request's id or `0`, its platform id comes from the pane and
/// the id, and the rest is the request's.
pub open spec fn is_notification_for(n: DesktopNotification, pane: PaneId, request: NotificationRequest) -> bool {
    &&& n.pane == pane
    &&& n.protocol_id@ == match request.id {
        Some(id) => id@,
        None => "0"@,
    }
    &&& n.id == match request.id {
        Some(id) => Some(platform_id(pane.0, id@)),
        None => None,
    }
    &&& n.title == request.title
    &&& n.body == request.body
    &&& n.urgency == request.urgency
    &&& n.timeout_ms == request.timeout_ms
    &&& n.sound == request.sound
    &&& n.icon_name == request.icon_name
    &&& n.icon == request.icon
    &&& n.buttons == request.buttons
    &&& n.reporting == request.reporting
}

/// What a notification request does.
pub open spec fn notification_step(
    before: PaneProtocolState,
    after: PaneProtocolState,
    pane: PaneId,
    request: NotificationRequest,
    policy: OutputPolicy,
    now: u64,
    actions: Seq<PaneAction>,
) -> bool {
    if shows_notification(before, request, policy, now) {
        &&& after == PaneProtocolState {
            last_notification_at: Some(now),
            active_notifications: after.active_notifications,
            ..before
        }
        &&& tracked_after(
            before.active_notifications.entries(),
            after.active_notifications.entries(),
            request.id,
            expiry(request.timeout_ms, now),
        )
        &&& actions.len() == 1
        &&& actions[0] matches PaneAction::ShowNotification(n) && is_notification_for(n, pane, request)
    } else {
        after == before && actions.len() == 0
    }
}

/// Whether a URL may be opened: opening allowed, the URL acceptable, and
/// the last one opened at least the interval ago.
pub open spec fn url_opens(enabled: bool, url: Seq<char>, last: Option<u64>, now: u64) -> bool {
    &&& enabled
    &&& url_verdict(url, encode_utf8(url).len()) is Ok
    &&& match last {
        None => true,
        Some(last) => elapsed(last, now) >= OSC_OPEN_URL_INTERVAL_MS,
    }
}

/// The progress after `update`, as [`apply_terminal_progress`] gives it.
pub open spec fn progress_after(current: Option<TerminalProgress>, update: TerminalProgress) -> Option<
    TerminalProgress,
> {
    match update {
        TerminalProgress::Hidden => None,
        TerminalProgress::Warning(None) => Some(
            TerminalProgress::Warning(
                match current {
                    Some(progress) => progress_value(progress),
                    None => None,
                },
            ),
        ),
        _ => Some(update),
    }
}

/// The session status after `update`: each field it carries replaces the
/// one shown.
pub open spec fn status_after(
    current: SessionStatusState,
    update: crate::session::SessionStatusUpdate,
) -> SessionStatusState {
    SessionStatusState {
        indicator: match update.indicator {
            Some(indicator) => indicator,
            None => current.indicator,
        },
        status: match update.status {
            Some(status) => status,
            None => current.status,
        },
        status_color: match update.status_color {
            Some(color) => color,
            None => current.status_color,
        },
    }
}

/// The tab colour after one channel is set.
pub open spec fn tab_color_after(current: TabColorState, component: TabColorComponent, value: u8) -> TabColorState {
    match component {
        TabColorComponent::Red => TabColorState { red: Some(value), ..current },
        TabColorComponent::Green => TabColorState { green: Some(value), ..current },
        TabColorComponent::Blue => TabColorState { blue: Some(value), ..current },
    }
}

/// `actions` holds `k` actions of the report's own, then the event that
/// scripts hear of it, if they hear of it.
pub open spec fn then_script_event(actions: Seq<PaneAction>, k: int, pane: PaneId, event: TerminalEvent) -> bool {
    match script_event(pane, event) {
        Some(_) => actions.len() == k + 1 && (actions[k] matches PaneAction::ScriptEvent(e)
            && is_script_event_for(Some(e), pane, event)),
        None => actions.len() == k,
    }
}

/// What one report of a pane's terminal does: `before` becomes `after`,
/// and the application is asked for `actions`, in order.
pub open spec fn terminal_event_step(
    before: PaneProtocolState,
    after: PaneProtocolState,
    pane: PaneId,
    event: TerminalEvent,
    policy: OutputPolicy,
    now: u64,
    actions: Seq<PaneAction>,
) -> bool {
    let vars = before.variables;
    let none = then_script_event(actions, 0, pane, event);
    match event {
        TerminalEvent::TitleChanged(title) => none && after == PaneProtocolState {
            variables: SessionVariables { title, ..vars },
            ..before
        },
        TerminalEvent::TitleReset => none && after == PaneProtocolState {
            variables: SessionVariables { title: after.variables.title, ..vars },
            ..before
        } && after.variables.title@ == "Pane "@ + decimal(pane.0 as nat),
        TerminalEvent::IconTitleChanged(title) => none && after == PaneProtocolState {
            variables: SessionVariables { icon_title: Some(title), ..vars },
            ..before
        },
        TerminalEvent::CwdChanged(cwd) => none && after == PaneProtocolState {
            variables: SessionVariables { path: Some(cwd), ..vars },
            ..before
        },
        TerminalEvent::RemoteHostChanged(host) => none && after == PaneProtocolState {
            variables: SessionVariables { remote_host: Some(host), ..vars },
            ..before
        },
        TerminalEvent::ShellIntegrationChanged { version, shell } => none && after
            == PaneProtocolState {
            shell_integration_version: Some(version),
            variables: SessionVariables { shell, ..vars },
            ..before
        },
        TerminalEvent::ItermVariableQuery(name) => after == before && actions.len() == 1
            && (actions[0] matches PaneAction::WritePty(r) && r@ == variable_report(
            variable_value(&vars, name@),
        )),
        TerminalEvent::ItermBadgeFormatChanged(format) => none && after == PaneProtocolState {
            variables: SessionVariables { badge: after.variables.badge, ..vars },
            ..before
        } && opt_view(after.variables.badge) == (if format@.len() == 0 {
            None
        } else {
            badge(&vars, policy.variable_name_limit as nat, format@)
        }),
        TerminalEvent::CursorLineHighlightChanged(enabled) => none && after
            == PaneProtocolState { cursor_line_highlight: enabled, ..before },
        TerminalEvent::AttentionRequested(request) => match request {
            TerminalAttention::Cancel => after == before && actions == seq![
                PaneAction::RequestAttention(TerminalAttention::Cancel),
            ],
            TerminalAttention::Fireworks => actions.len() == 0 && if policy.allow_attention {
                after == PaneProtocolState {
                    cursor_fireworks_deadline: Some((now + OSC_CURSOR_FIREWORKS_DURATION_MS) as u64),
                    ..before
                }
            } else {
                after == before
            },
            _ => after == before && if policy.allow_attention {
                actions == seq![PaneAction::RequestAttention(request)]
            } else {
                actions.len() == 0
            },
        },
        TerminalEvent::OpenUrlRequested(url) => if url_opens(
            policy.allow_open_url,
            url@,
            before.last_open_url_at,
            now,
        ) {
            after == PaneProtocolState { last_open_url_at: Some(now), ..before } && actions
                == seq![PaneAction::OpenUrl(url)]
        } else {
            after == before && actions.len() == 0
        },
        TerminalEvent::UserVarChanged { name, value } => none && after == PaneProtocolState {
            variables: SessionVariables { user_vars: after.variables.user_vars, ..vars },
            ..before
        } && after.variables.user_vars@ == (if vars.user_vars@.contains_key(name@)
            || vars.user_vars.size() < MAX_OSC_USER_VARS {
            vars.user_vars@.insert(name@, value@)
        } else {
            vars.user_vars@
        }),
        TerminalEvent::CommandStarted => none && after == PaneProtocolState {
            command_running: true,
            ..before
        },
        TerminalEvent::CommandFinished(status) => none && after == PaneProtocolState {
            command_running: false,
            last_exit_status: status,
            ..before
        },
        TerminalEvent::MouseCursorChanged(name) => after == PaneProtocolState {
            mouse_cursor: Some(name),
            ..before
        } && actions == seq![PaneAction::UpdateMouseCursor],
        TerminalEvent::TabColorChanged { component, value } => none && after
            == PaneProtocolState {
            tab_color: tab_color_after(before.tab_color, component, value),
            ..before
        },
        TerminalEvent::TabColorSet(color) => none && after == PaneProtocolState {
            tab_color: TabColorState {
                red: Some(color[0]),
                green: Some(color[1]),
                blue: Some(color[2]),
            },
            ..before
        },
        TerminalEvent::TabColorReset => none && after == PaneProtocolState {
            tab_color: TabColorState { red: None, green: None, blue: None },
            ..before
        },
        TerminalEvent::SessionStatusChanged(update) => none && after == PaneProtocolState {
            session_status: status_after(before.session_status, update),
            ..before
        },
        TerminalEvent::ProgressChanged(update) => none && after == PaneProtocolState {
            progress: progress_after(before.progress, update),
            ..before
        },
        TerminalEvent::ClipboardStore(text) => after == before && actions == seq![
            PaneAction::CopyToClipboard(text),
        ],
        TerminalEvent::Notification(request) => notification_step(
            before,
            after,
            pane,
            request,
            policy,
            now,
            actions,
        ),
        TerminalEvent::NotificationClose(id) => after == PaneProtocolState {
            active_notifications: after.active_notifications,
            ..before
        } && if has_id(before.active_notifications.entries(), id@) {
            (exists|i: int|
                0 <= i < before.active_notifications.entries().len()
                    && before.active_notifications.entries()[i].0 == id@
                    && after.active_notifications.entries()
                    == before.active_notifications.entries().remove(i)) && actions == seq![
                PaneAction::CloseNotification(platform_id(pane.0, id@)),
            ]
        } else {
            after.active_notifications.entries() == before.active_notifications.entries()
                && actions.len() == 0
        },
        TerminalEvent::NotificationAliveQuery(request_id) => after == PaneProtocolState {
            active_notifications: after.active_notifications,
            ..before
        } && after.active_notifications.entries() == before.active_notifications.entries().filter(
            |e: (Seq<char>, Option<u64>)| still_alive(e.1, now),
        ) && actions.len() == 1 && (actions[0] matches PaneAction::WritePty(r) && r@
            == alive_report(request_id@, after.active_notifications.entries())),
        TerminalEvent::PtyWrite(bytes) => after == before && actions == seq![
            PaneAction::WritePty(bytes),
        ],
        TerminalEvent::Bell { visual_bell } => none && after == PaneProtocolState {
            visual_bell_deadline: if visual_bell is Some {
                Some((now + OSC_VISUAL_BELL_DURATION_MS) as u64)
            } else {
                None
            },
            ..before
        },
        _ => none && after == before,
    }
}

impl PaneProtocolState {
    /// Takes in the user's answer to one of the pane's notifications: the
    /// notification is no longer tracked, and the report for the program
    /// is returned, to be written to it.
    pub fn apply_notification_feedback(&mut self, feedback: &NotificationFeedback) -> (r: String)
        requires
            old(self).wf(),
        ensures
            final(self).wf(),
            *final(self) == (PaneProtocolState {
                active_notifications: final(self).active_notifications,
                ..*old(self)
            }),
            has_id(old(self).active_notifications.entries(), feedback.id@) ==> exists|i: int|
                0 <= i < old(self).active_notifications.entries().len()
                    && old(self).active_notifications.entries()[i].0 == feedback.id@
                    && final(self).active_notifications.entries()
                    == old(self).active_notifications.entries().remove(i),
            !has_id(old(self).active_notifications.entries(), feedback.id@)
                ==> final(self).active_notifications.entries()
                == old(self).active_notifications.entries(),
            r@ == feedback_report(feedback.id@, feedback.kind),
    {
        self.active_notifications.remove(feedback.id.as_str());
        notification_feedback_response(feedback)
    }
}

/// Shows the notification `request` asks for, when it is allowed now, and
/// keeps track of its id.
fn show_notification(
    state: &mut PaneProtocolState,
    pane: PaneId,
    request: NotificationRequest,
    policy: OutputPolicy,
    now: u64,
) -> (actions: Vec<PaneAction>)
    requires
        old(state).wf(),
    ensures
        final(state).wf(),
        notification_step(*old(state), *final(state), pane, request, policy, now, actions@),
{
    let mut actions: Vec<PaneAction> = Vec::new();
    let interval_ok = match state.last_notification_at {
        None => true,
        Some(last) => {
            let elapsed = if now >= last {
                now - last
            } else {
                0
            };
            elapsed >= OSC_NOTIFICATION_INTERVAL_MS
        },
    };
    let occasion_ok = notification_occasion_matches(
        request.occasion,
        policy.source_focused,
        policy.source_visible,
    );
    if !(policy.allow_notifications && occasion_ok && interval_ok) {
        return actions;
    }
    state.last_notification_at = Some(now);
    let NotificationRequest {
        id,
        title,
        body,
        occasion: _,
        urgency,
        timeout_ms,
        sound,
        icon_name,
        icon,
        buttons,
        reporting,
    } = request;
    let deadline = notification_expiry(timeout_ms, now);
    let platform = match &id {
        Some(key) => {
            if state.active_notifications.contains_key(key.as_str())
                || state.active_notifications.len() < MAX_TRACKED_NOTIFICATION_IDS {
                state.active_notifications.insert(key.clone(), deadline);
            }
            Some(notification_platform_id(pane, key.as_str()))
        },
        None => None,
    };
    let protocol_id = match id {
        Some(key) => key,
        None => String::from_str("0"),
    };
    let shown = DesktopNotification {
        pane,
        protocol_id,
        id: platform,
        title,
        body,
        urgency,
        timeout_ms,
        sound,
        icon_name,
        icon,
        buttons,
        reporting,
    };
    actions.push(PaneAction::ShowNotification(shown));
    actions
}

/// Applies one report of the terminal of `pane` to its protocol state, and
/// says what the application is to do for it, in order; the event scripts
/// hear of the report, if any, comes last.
pub fn apply_terminal_event(
    state: &mut PaneProtocolState,
    pane: PaneId,
    event: TerminalEvent,
    policy: OutputPolicy,
    now: u64,
) -> (actions: Vec<PaneAction>)
    requires
        old(state).wf(),
        now + OSC_CURSOR_FIREWORKS_DURATION_MS <= u64::MAX,
    ensures
        final(state).wf(),
        terminal_event_step(*old(state), *final(state), pane, event, policy, now, actions@),
{
    let script = script_event_of(pane, &event);
    let mut actions: Vec<PaneAction> = Vec::new();
    match event {
        TerminalEvent::TitleChanged(title) => {
            state.variables.title = title;
        },
        TerminalEvent::TitleReset => {
            let mut title = String::new();
            push_str(&mut title, "Pane ");
            push_decimal(&mut title, pane.0 as u128);
            proof {
                assert(title@ =~= "Pane "@ + decimal(pane.0 as nat));
            }
            state.variables.title = title;
        },
        TerminalEvent::IconTitleChanged(title) => {
            state.variables.icon_title = Some(title);
        },
        TerminalEvent::CwdChanged(cwd) => {
            state.variables.path = Some(cwd);
        },
        TerminalEvent::RemoteHostChanged(host) => {
            state.variables.remote_host = Some(host);
        },
        TerminalEvent::ShellIntegrationChanged { version, shell } => {
            state.shell_integration_version = Some(version);
            state.variables.shell = shell;
        },
        TerminalEvent::ItermVariableQuery(name) => {
            let response = state.variables.iterm_variable_response(name.as_str());
            actions.push(PaneAction::WritePty(response));
        },
        TerminalEvent::ItermBadgeFormatChanged(format) => {
            state.variables.apply_iterm_badge_format(format.as_str(), policy.variable_name_limit);
        },
        TerminalEvent::CursorLineHighlightChanged(enabled) => {
            state.cursor_line_highlight = enabled;
        },
        TerminalEvent::AttentionRequested(request) => {
            match request {
                TerminalAttention::Cancel => {
                    actions.push(PaneAction::RequestAttention(TerminalAttention::Cancel));
                },
                TerminalAttention::Fireworks => {
                    if policy.allow_attention {
                        state.cursor_fireworks_deadline = Some(
                            now + OSC_CURSOR_FIREWORKS_DURATION_MS,
                        );
                    }
                },
                _ => {
                    if policy.allow_attention {
                        actions.push(PaneAction::RequestAttention(request));
                    }
                },
            }
        },
        TerminalEvent::OpenUrlRequested(url) => {
            if should_open_osc_url(policy.allow_open_url, url.as_str(), state.last_open_url_at, now) {
                state.last_open_url_at = Some(now);
                actions.push(PaneAction::OpenUrl(url));
            }
        },
        TerminalEvent::UserVarChanged { name, value } => {
            state.variables.user_vars.set(name, value);
        },
        TerminalEvent::CommandStarted => {
            state.command_running = true;
        },
        TerminalEvent::CommandFinished(status) => {
            state.command_running = false;
            state.last_exit_status = status;
        },
        TerminalEvent::MouseCursorChanged(name) => {
            state.mouse_cursor = Some(name);
            actions.push(PaneAction::UpdateMouseCursor);
        },
        TerminalEvent::TabColorChanged { component, value } => {
            state.tab_color.set(component, value);
        },
        TerminalEvent::TabColorSet(color) => {
            state.tab_color = TabColorState {
                red: Some(color[0]),
                green: Some(color[1]),
                blue: Some(color[2]),
            };
        },
        TerminalEvent::TabColorReset => {
            state.tab_color = TabColorState { red: None, green: None, blue: None };
        },
        TerminalEvent::SessionStatusChanged(update) => {
            state.session_status.apply(&update);
        },
        TerminalEvent::ProgressChanged(update) => {
            state.progress = apply_terminal_progress(state.progress, update);
        },
        TerminalEvent::ClipboardStore(text) => {
            actions.push(PaneAction::CopyToClipboard(text));
        },
        TerminalEvent::Notification(request) => {
            actions = show_notification(state, pane, request, policy, now);
        },
        TerminalEvent::NotificationClose(id) => {
            if state.active_notifications.remove(id.as_str()) {
                actions.push(PaneAction::CloseNotification(notification_platform_id(pane, id.as_str())));
            }
        },
        TerminalEvent::NotificationAliveQuery(request_id) => {
            let response = notification_alive_response(
                request_id.as_str(),
                &mut state.active_notifications,
                now,
            );
            actions.push(PaneAction::WritePty(response));
        },
        TerminalEvent::PtyWrite(bytes) => {
            actions.push(PaneAction::WritePty(bytes));
        },
        TerminalEvent::Bell { visual_bell } => {
            state.visual_bell_deadline = visual_bell_deadline(visual_bell, now);
        },
        _ => {},
    }
    match script {
        Some(e) => actions.push(PaneAction::ScriptEvent(e)),
        None => {},
    }
    actions
}

} // verus!
