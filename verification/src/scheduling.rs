//! When the event loop wakes up next, which status bar is refreshed, and
//! what a finished script request changes in the window. Times are
//! milliseconds on one monotonic clock.
use vstd::prelude::*;
use crate::layout::StatusBarPosition;
use crate::pane_events::PaneProtocolState;
use crate::session::ConfigErrorNotice;

verus! {

/// How long, in milliseconds, a status bar waits before it is asked for
/// again after its request failed.
pub const BAR_RETRY_MS: u64 = 1000;

/// How the event loop waits.
#[derive(Clone, Copy, Debug, PartialEq, Eq, Structural)]
pub enum ControlFlow {
    /// Until the next event.
    Wait,
    /// Until the next event or this time, whichever comes first.
    WaitUntil(u64),
}

/// Waiting for `deadline`, if there is one.
pub open spec fn wait_for(deadline: Option<u64>) -> ControlFlow {
    match deadline {
        Some(d) => ControlFlow::WaitUntil(d),
        None => ControlFlow::Wait,
    }
}

/// The earliest of `deadlines`, if there is any.
pub open spec fn earliest(deadlines: Seq<u64>) -> Option<u64>
    decreases deadlines.len(),
{
    if deadlines.len() == 0 {
        None
    } else {
        match earliest(deadlines.drop_last()) {
            None => Some(deadlines.last()),
            Some(d) => if deadlines.last() < d {
                Some(deadlines.last())
            } else {
                Some(d)
            },
        }
    }
}

/// The earlier of `a`, if any, and `b`.
pub open spec fn earlier(a: Option<u64>, b: u64) -> u64 {
    match a {
        Some(a) => if a < b {
            a
        } else {
            b
        },
        None => b,
    }
}

/// When each status bar is asked for its items next, whether it has shown
/// items yet, and which bar's request is under way.
#[derive(Clone, Copy, Debug, PartialEq, Eq, Structural)]
pub struct BarSchedule {
    pub pending: Option<StatusBarPosition>,
    pub next_top: Option<u64>,
    pub next_bottom: Option<u64>,
    pub top_has_items: bool,
    pub bottom_has_items: bool,
}

/// When the event loop is to wake up, and which status bar is due now.
#[derive(Clone, Copy, Debug, PartialEq, Eq, Structural)]
pub struct Wakeup {
    /// How to wait when the due bar's request, if any, is under way.
    pub control: ControlFlow,
    /// The bar whose items are to be asked for now.
    pub due_bar: Option<StatusBarPosition>,
    /// The earliest of the terminals' deadlines.
    pub terminal_deadline: Option<u64>,
}

impl BarSchedule {
    /// No bar asked for yet, none scheduled.
    pub fn new() -> (r: BarSchedule)
        ensures
            r.pending is None,
            r.next_top is None,
            r.next_bottom is None,
            !r.top_has_items,
            !r.bottom_has_items,
    {
        BarSchedule {
            pending: None,
            next_top: None,
            next_bottom: None,
            top_has_items: false,
            bottom_has_items: false,
        }
    }

    /// When the bar at `position` is asked for next, if it is scheduled.
    pub open spec fn next_at(self, position: StatusBarPosition) -> Option<u64> {
        match position {
            StatusBarPosition::Top => self.next_top,
            StatusBarPosition::Bottom => self.next_bottom,
        }
    }

    /// Whether the bar at `position` has shown items since the
    /// configuration was loaded.
    pub open spec fn has_items(self, position: StatusBarPosition) -> bool {
        match position {
            StatusBarPosition::Top => self.top_has_items,
            StatusBarPosition::Bottom => self.bottom_has_items,
        }
    }

    /// The schedule with the bar at `position` next asked for at `next`.
    pub open spec fn with_next(self, position: StatusBarPosition, next: Option<u64>) -> BarSchedule {
        match position {
            StatusBarPosition::Top => BarSchedule { next_top: next, ..self },
            StatusBarPosition::Bottom => BarSchedule { next_bottom: next, ..self },
        }
    }

    /// When the bar at `position` is asked for next.
    pub fn next(&self, position: StatusBarPosition) -> (r: Option<u64>)
        ensures
            r == self.next_at(position),
    {
        match position {
            StatusBarPosition::Top => self.next_top,
            StatusBarPosition::Bottom => self.next_bottom,
        }
    }

    fn set_next(&mut self, position: StatusBarPosition, next: Option<u64>)
        ensures
            *final(self) == old(self).with_next(position, next),
    {
        match position {
            StatusBarPosition::Top => self.next_top = next,
            StatusBarPosition::Bottom => self.next_bottom = next,
        }
    }

    /// The request for the bar at `position` is under way.
    pub fn bar_submitted(&mut self, position: StatusBarPosition)
        ensures
            *final(self) == (BarSchedule {
                pending: Some(position),
                ..old(self).with_next(position, None)
            }),
    {
        self.set_next(position, None);
        self.pending = Some(position);
    }

    /// The request for the bar at `position` could not be made: it is
    /// asked for again a second from `now`, and the loop waits for that or
    /// the terminals' deadline, whichever comes first.
    pub fn bar_submit_failed(
        &mut self,
        position: StatusBarPosition,
        terminal_deadline: Option<u64>,
        now: u64,
    ) -> (r: ControlFlow)
        requires
            now + BAR_RETRY_MS <= u64::MAX,
        ensures
            *final(self) == old(self).with_next(position, Some((now + BAR_RETRY_MS) as u64)),
            r == ControlFlow::WaitUntil(earlier(terminal_deadline, (now + BAR_RETRY_MS) as u64)),
    {
        let retry = now + BAR_RETRY_MS;
        self.set_next(position, Some(retry));
        ControlFlow::WaitUntil(earlier_of(terminal_deadline, retry))
    }
}

fn earlier_of(a: Option<u64>, b: u64) -> (r: u64)
    ensures
        r == earlier(a, b),
{
    match a {
        Some(a) => if a < b {
            a
        } else {
            b
        },
        None => b,
    }
}

/// The earliest of `deadlines`.
pub fn earliest_deadline(deadlines: &Vec<u64>) -> (r: Option<u64>)
    ensures
        r == earliest(deadlines@),
{
    let mut best: Option<u64> = None;
    let mut i: usize = 0;
    while i < deadlines.len()
        invariant
            i <= deadlines@.len(),
            best == earliest(deadlines@.take(i as int)),
        decreases deadlines@.len() - i,
    {
        proof {
            assert(deadlines@.take(i + 1).drop_last() =~= deadlines@.take(i as int));
        }
        let d = deadlines[i];
        best = match best {
            None => Some(d),
            Some(b) => if d < b {
                Some(d)
            } else {
                Some(b)
            },
        };
        i = i + 1;
    }
    proof {
        assert(deadlines@.take(i as int) =~= deadlines@);
    }
    best
}

/// The schedule in which each configured bar that has shown no items yet
/// is due at `now`, unless it was already scheduled.
pub open spec fn filled(s: BarSchedule, bars: Seq<StatusBarPosition>, now: u64) -> BarSchedule {
    BarSchedule {
        next_top: if bars.contains(StatusBarPosition::Top) && !s.top_has_items
            && s.next_top is None {
            Some(now)
        } else {
            s.next_top
        },
        next_bottom: if bars.contains(StatusBarPosition::Bottom) && !s.bottom_has_items
            && s.next_bottom is None {
            Some(now)
        } else {
            s.next_bottom
        },
        ..s
    }
}

/// The configured bar that is due first, with its time: of the bars that
/// are scheduled, the first in `bars` whose time is the earliest.
pub open spec fn earliest_bar(bars: Seq<StatusBarPosition>, s: BarSchedule) -> Option<
    (StatusBarPosition, u64),
>
    decreases bars.len(),
{
    if bars.len() == 0 {
        None
    } else {
        let rest = earliest_bar(bars.drop_last(), s);
        match s.next_at(bars.last()) {
            None => rest,
            Some(d) => match rest {
                None => Some((bars.last(), d)),
                Some((q, e)) => if d < e {
                    Some((bars.last(), d))
                } else {
                    rest
                },
            },
        }
    }
}

/// What the event loop does before it waits, given the configured bars,
/// whether a window is open, and the earliest terminal deadline.
pub open spec fn wakeup_step(
    before: BarSchedule,
    after: BarSchedule,
    bars: Seq<StatusBarPosition>,
    window_present: bool,
    terminal: Option<u64>,
    now: u64,
    r: Wakeup,
) -> bool {
    &&& r.terminal_deadline == terminal
    &&& if bars.len() == 0 {
        &&& after == BarSchedule { next_top: None, next_bottom: None, ..before }
        &&& r.control == wait_for(terminal)
        &&& r.due_bar is None
    } else if before.pending is Some || !window_present {
        &&& after == before
        &&& r.control == wait_for(terminal)
        &&& r.due_bar is None
    } else {
        &&& after == filled(before, bars, now)
        &&& match earliest_bar(bars, after) {
            None => r.control == wait_for(terminal) && r.due_bar is None,
            Some((position, deadline)) => if now < deadline {
                r.control == ControlFlow::WaitUntil(earlier(terminal, deadline)) && r.due_bar
                    is None
            } else {
                r.due_bar == Some(position) && r.control == wait_for(terminal)
            },
        }
    }
}

fn first_scheduled(bars: &Vec<StatusBarPosition>, s: &BarSchedule) -> (r: Option<
    (StatusBarPosition, u64),
>)
    ensures
        r == earliest_bar(bars@, *s),
{
    let mut best: Option<(StatusBarPosition, u64)> = None;
    let mut i: usize = 0;
    while i < bars.len()
        invariant
            i <= bars@.len(),
            best == earliest_bar(bars@.take(i as int), *s),
        decreases bars@.len() - i,
    {
        proof {
            assert(bars@.take(i + 1).drop_last() =~= bars@.take(i as int));
        }
        let position = bars[i];
        match s.next(position) {
            None => {},
            Some(d) => {
                best = match best {
                    None => Some((position, d)),
                    Some((q, e)) => if d < e {
                        Some((position, d))
                    } else {
                        Some((q, e))
                    },
                };
            },
        }
        i = i + 1;
    }
    proof {
        assert(bars@.take(i as int) =~= bars@);
    }
    best
}

fn contains_bar(bars: &Vec<StatusBarPosition>, position: StatusBarPosition) -> (r: bool)
    ensures
        r == bars@.contains(position),
{
    let mut i: usize = 0;
    while i < bars.len()
        invariant
            i <= bars@.len(),
            forall|j: int| 0 <= j < i ==> bars@[j] != position,
        decreases bars@.len() - i,
    {
        if bars[i] == position {
            return true;
        }
        i = i + 1;
    }
    false
}

/// Decides how the event loop waits: until the earliest terminal deadline
/// or the earliest bar refresh, whichever comes first; a bar whose time
/// has come is reported as due instead. Bars are only scheduled when some
/// are configured, a window is open and no bar request is under way; a
/// configured bar that has shown no items yet is due at once.
pub fn next_wakeup(
    schedule: &mut BarSchedule,
    bars: &Vec<StatusBarPosition>,
    window_present: bool,
    terminal_deadlines: &Vec<u64>,
    now: u64,
) -> (r: Wakeup)
    ensures
        wakeup_step(
            *old(schedule),
            *final(schedule),
            bars@,
            window_present,
            earliest(terminal_deadlines@),
            now,
            r,
        ),
{
    let terminal = earliest_deadline(terminal_deadlines);
    let waiting = match terminal {
        Some(d) => ControlFlow::WaitUntil(d),
        None => ControlFlow::Wait,
    };
    if bars.len() == 0 {
        schedule.next_top = None;
        schedule.next_bottom = None;
        return Wakeup { control: waiting, due_bar: None, terminal_deadline: terminal };
    }
    if schedule.pending.is_some() || !window_present {
        return Wakeup { control: waiting, due_bar: None, terminal_deadline: terminal };
    }
    if contains_bar(bars, StatusBarPosition::Top) && !schedule.top_has_items
        && schedule.next_top.is_none() {
        schedule.next_top = Some(now);
    }
    if contains_bar(bars, StatusBarPosition::Bottom) && !schedule.bottom_has_items
        && schedule.next_bottom.is_none() {
        schedule.next_bottom = Some(now);
    }
    match first_scheduled(bars, schedule) {
        None => Wakeup { control: waiting, due_bar: None, terminal_deadline: terminal },
        Some((position, deadline)) => {
            if now < deadline {
                Wakeup {
                    control: ControlFlow::WaitUntil(earlier_of(terminal, deadline)),
                    due_bar: None,
                    terminal_deadline: terminal,
                }
            } else {
                Wakeup { control: waiting, due_bar: Some(position), terminal_deadline: terminal }
            }
        },
    }
}

/// The kind of a finished script request, as far as the window cares.
#[derive(Clone, Copy, Debug, PartialEq, Eq, Structural)]
pub enum CompletedRequest {
    /// The configuration was reloaded.
    Reload,
    /// A status bar asked for its items.
    Bar(StatusBarPosition),
    /// A callback for a finished background process.
    AsyncCallback,
    /// Anything else: events, evaluations, key bindings, commands.
    Other,
}

/// What a successful script request handed back that the window decides on.
#[derive(Clone, Copy, Debug, PartialEq, Eq, Structural)]
pub struct ScriptOutcome {
    /// For a bar: when, in milliseconds from now, it wants to be asked again.
    pub bar_refresh_ms: Option<u64>,
    /// The request produced a new configuration.
    pub has_snapshot: bool,
}

/// What the window keeps that finished script requests change.
pub struct ScriptUi {
    pub bars: BarSchedule,
    pub config_error: Option<ConfigErrorNotice>,
}

/// What the application does with a successful request, in this order,
/// before it applies the request's commands and the rest.
#[derive(Clone, Copy, Debug, PartialEq, Eq, Structural)]
pub struct CompletionSteps {
    /// Show the items the request returned (none if it returned none) in
    /// this bar.
    pub store_bar_items: Option<StatusBarPosition>,
    /// Forget the badges that scripts set and close the selector: a reload
    /// replaced the scripts that owned them.
    pub clear_badges_and_selector: bool,
    /// Apply the new configuration.
    pub apply_snapshot: bool,
}

/// The schedule after a bar's request finished: nothing under way, and the
/// bar asked again after the interval it wants, or not at all.
pub open spec fn bar_done(s: BarSchedule, position: StatusBarPosition, refresh_at: Option<u64>) -> BarSchedule {
    let done = BarSchedule { pending: None, ..s.with_next(position, refresh_at) };
    match position {
        StatusBarPosition::Top => BarSchedule { top_has_items: true, ..done },
        StatusBarPosition::Bottom => BarSchedule { bottom_has_items: true, ..done },
    }
}

/// Takes in a finished script request. A failed one is reported back as
/// its message: a failed reload leaves a configuration error notice with
/// that message, folded, and a failed bar is asked again a second later.
/// For a successful one, a bar shows its items and is scheduled as it
/// asked, and a new configuration clears the error notice; the steps that
/// remain for the application are returned.
pub fn begin_script_completion(
    ui: &mut ScriptUi,
    request: CompletedRequest,
    result: Result<ScriptOutcome, String>,
    now: u64,
) -> (r: Result<CompletionSteps, String>)
    requires
        now + BAR_RETRY_MS <= u64::MAX,
        result matches Ok(outcome) && outcome.bar_refresh_ms matches Some(ms) ==> now + ms
            <= u64::MAX,
    ensures
        match result {
            Err(message) => {
                &&& r == Err::<CompletionSteps, String>(message)
                &&& match request {
                    CompletedRequest::Reload => final(ui).config_error matches Some(notice)
                        && notice.message@ == message@ && !notice.log_expanded,
                    _ => final(ui).config_error == old(ui).config_error,
                }
                &&& final(ui).bars == match request {
                    CompletedRequest::Bar(position) => BarSchedule {
                        pending: None,
                        ..old(ui).bars.with_next(position, Some((now + BAR_RETRY_MS) as u64))
                    },
                    _ => old(ui).bars,
                }
            },
            Ok(outcome) => {
                &&& r == Ok::<CompletionSteps, String>(
                    CompletionSteps {
                        store_bar_items: match request {
                            CompletedRequest::Bar(position) => Some(position),
                            _ => None,
                        },
                        clear_badges_and_selector: request is Reload,
                        apply_snapshot: outcome.has_snapshot,
                    },
                )
                &&& final(ui).config_error == if outcome.has_snapshot {
                    None
                } else {
                    old(ui).config_error
                }
                &&& final(ui).bars == match request {
                    CompletedRequest::Bar(position) => bar_done(
                        old(ui).bars,
                        position,
                        match outcome.bar_refresh_ms {
                            Some(ms) => Some((now + ms) as u64),
                            None => None,
                        },
                    ),
                    _ => old(ui).bars,
                }
            },
        },
{
    match result {
        Err(message) => {
            match request {
                CompletedRequest::Reload => {
                    ui.config_error = Some(
                        ConfigErrorNotice { message: message.clone(), log_expanded: false },
                    );
                },
                CompletedRequest::Bar(position) => {
                    ui.bars.pending = None;
                    ui.bars.set_next(position, Some(now + BAR_RETRY_MS));
                },
                _ => {},
            }
            Err(message)
        },
        Ok(outcome) => {
            let mut store_bar_items = None;
            match request {
                CompletedRequest::Bar(position) => {
                    ui.bars.pending = None;
                    let refresh_at = match outcome.bar_refresh_ms {
                        Some(ms) => Some(now + ms),
                        None => None,
                    };
                    ui.bars.set_next(position, refresh_at);
                    match position {
                        StatusBarPosition::Top => ui.bars.top_has_items = true,
                        StatusBarPosition::Bottom => ui.bars.bottom_has_items = true,
                    }
                    store_bar_items = Some(position);
                },
                _ => {},
            }
            if outcome.has_snapshot {
                ui.config_error = None;
            }
            let reload = match request {
                CompletedRequest::Reload => true,
                _ => false,
            };
            Ok(
                CompletionSteps {
                    store_bar_items,
                    clear_badges_and_selector: reload,
                    apply_snapshot: outcome.has_snapshot,
                },
            )
        },
    }
}

/// The schedule in which every configured bar is due at `now`.
pub open spec fn all_due(s: BarSchedule, bars: Seq<StatusBarPosition>, now: u64) -> BarSchedule {
    BarSchedule {
        next_top: if bars.contains(StatusBarPosition::Top) {
            Some(now)
        } else {
            s.next_top
        },
        next_bottom: if bars.contains(StatusBarPosition::Bottom) {
            Some(now)
        } else {
            s.next_bottom
        },
        ..s
    }
}

/// Finishes a request whose results were all applied: after a background
/// callback every configured bar is asked again at once, since the callback
/// may have changed what the bars show. Says whether the configuration is
/// to be reloaded: when a command asked for it and the request was not
/// itself a reload.
pub fn finish_script_completion(
    ui: &mut ScriptUi,
    request: CompletedRequest,
    bars: &Vec<StatusBarPosition>,
    reload_requested: bool,
    now: u64,
) -> (reload: bool)
    ensures
        reload == (reload_requested && !(request is Reload)),
        final(ui).config_error == old(ui).config_error,
        final(ui).bars == if request is AsyncCallback {
            all_due(old(ui).bars, bars@, now)
        } else {
            old(ui).bars
        },
{
    match request {
        CompletedRequest::AsyncCallback => {
            if contains_bar(bars, StatusBarPosition::Top) {
                ui.bars.next_top = Some(now);
            }
            if contains_bar(bars, StatusBarPosition::Bottom) {
                ui.bars.next_bottom = Some(now);
            }
        },
        _ => {},
    }
    match request {
        CompletedRequest::Reload => false,
        _ => reload_requested,
    }
}

impl BarSchedule {
    /// The schedule for a new configuration with `bars`: no items shown, no
    /// request under way, and each configured bar due at `now`.
    pub fn restart(&mut self, bars: &Vec<StatusBarPosition>, now: u64)
        ensures
            *final(self) == (BarSchedule {
                pending: None,
                next_top: if bars@.contains(StatusBarPosition::Top) {
                    Some(now)
                } else {
                    None
                },
                next_bottom: if bars@.contains(StatusBarPosition::Bottom) {
                    Some(now)
                } else {
                    None
                },
                top_has_items: false,
                bottom_has_items: false,
            }),
    {
        self.pending = None;
        self.top_has_items = false;
        self.bottom_has_items = false;
        self.next_top = if contains_bar(bars, StatusBarPosition::Top) {
            Some(now)
        } else {
            None
        };
        self.next_bottom = if contains_bar(bars, StatusBarPosition::Bottom) {
            Some(now)
        } else {
            None
        };
    }
}

impl PaneProtocolState {
    /// Puts out the visual bell and the cursor fireworks whose time has
    /// come, and says whether any went out.
    pub fn expire_effects(&mut self, now: u64) -> (expired: bool)
        ensures
            *final(self) == (PaneProtocolState {
                visual_bell_deadline: match old(self).visual_bell_deadline {
                    Some(d) => if d <= now {
                        None
                    } else {
                        Some(d)
                    },
                    None => None,
                },
                cursor_fireworks_deadline: match old(self).cursor_fireworks_deadline {
                    Some(d) => if d <= now {
                        None
                    } else {
                        Some(d)
                    },
                    None => None,
                },
                ..*old(self)
            }),
            expired == ((old(self).visual_bell_deadline matches Some(d) && d <= now) || (old(
                self,
            ).cursor_fireworks_deadline matches Some(d) && d <= now)),
    {
        let mut expired = false;
        match self.visual_bell_deadline {
            Some(d) => if d <= now {
                self.visual_bell_deadline = None;
                expired = true;
            },
            None => {},
        }
        match self.cursor_fireworks_deadline {
            Some(d) => if d <= now {
                self.cursor_fireworks_deadline = None;
                expired = true;
            },
            None => {},
        }
        expired
    }

    /// Adds the times at which the pane's visual bell and cursor
    /// fireworks go out, those that are set, to `deadlines`.
    pub fn push_effect_deadlines(&self, deadlines: &mut Vec<u64>)
        ensures
            final(deadlines)@ == old(deadlines)@ + (match self.visual_bell_deadline {
                Some(d) => seq![d],
                None => Seq::empty(),
            }) + (match self.cursor_fireworks_deadline {
                Some(d) => seq![d],
                None => Seq::empty(),
            }),
    {
        let ghost start = deadlines@;
        match self.visual_bell_deadline {
            Some(d) => deadlines.push(d),
            None => {},
        }
        let ghost middle = deadlines@;
        match self.cursor_fireworks_deadline {
            Some(d) => deadlines.push(d),
            None => {},
        }
        proof {
            assert(middle =~= start + match self.visual_bell_deadline {
                Some(d) => seq![d],
                None => Seq::empty(),
            });
            assert(deadlines@ =~= middle + match self.cursor_fireworks_deadline {
                Some(d) => seq![d],
                None => Seq::empty(),
            });
        }
    }
}

} // verus!
