//! The queue of work for the scripting runtime: events, evaluations and
//! callbacks wait here until the runtime is free. State events about the same
//! target are coalesced and the number of waiting events is bounded.
use std::collections::VecDeque;
use std::sync::Arc;

use vstd::prelude::*;

use crate::api::{PaneId, ScriptEventKind, TabId, WindowId, WorkspaceId};
use vstd::std_specs::cmp::PartialEqSpec;

verus! {

/// The most events that may wait for the scripting runtime at once.
pub const MAX_PENDING_SCRIPT_EVENTS: usize = 1024;

/// An event delivered to scripts, with the objects it concerns.
#[derive(Clone, Debug, PartialEq)]
pub struct RubyEvent {
    pub kind: ScriptEventKind,
    pub workspace: Option<WorkspaceId>,
    pub window: Option<WindowId>,
    pub tab: Option<TabId>,
    pub pane: Option<PaneId>,
    pub title: Option<String>,
    pub cwd: Option<String>,
    pub exit_status: Option<i32>,
}

impl RubyEvent {
    /// An event of `kind` that concerns no particular object yet.
    pub fn new(kind: ScriptEventKind) -> (e: RubyEvent)
        ensures
            e.kind == kind,
            e.workspace is None,
            e.window is None,
            e.tab is None,
            e.pane is None,
            e.title is None,
            e.cwd is None,
            e.exit_status is None,
    {
        RubyEvent {
            kind,
            workspace: None,
            window: None,
            tab: None,
            pane: None,
            title: None,
            cwd: None,
            exit_status: None,
        }
    }

    /// The name under which scripts subscribe to the event.
    pub fn name(&self) -> (s: &'static str)
        ensures
            s@ == self.kind.spec_name(),
    {
        self.kind.as_str()
    }
}

/// Work for the scripting runtime.
#[derive(Clone, Debug, PartialEq)]
pub enum ScriptInvocation {
    Event(RubyEvent),
    Eval(String),
    Reload,
    KeyBinding(String),
    UserCommand { name: String, pane: PaneId },
}

/// What became of a request to queue work.
#[derive(Clone, Copy, Debug, PartialEq, Eq, Structural)]
pub enum PendingScriptEnqueue {
    Queued,
    Coalesced,
    Dropped,
}

/// Events that describe current state, of which only the latest matters.
pub open spec fn spec_is_coalescible(kind: ScriptEventKind) -> bool {
    kind == ScriptEventKind::TitleChanged || kind == ScriptEventKind::CwdChanged || kind
        == ScriptEventKind::PaneFocused || kind == ScriptEventKind::WorkspaceChanged
}

/// Whether events of `kind` describe current state, so that a newer one
/// replaces an older one for the same target.
pub fn is_coalescible_event(kind: ScriptEventKind) -> (r: bool)
    ensures
        r == spec_is_coalescible(kind),
{
    match kind {
        ScriptEventKind::TitleChanged | ScriptEventKind::CwdChanged
        | ScriptEventKind::PaneFocused | ScriptEventKind::WorkspaceChanged => true,
        _ => false,
    }
}

/// Two events of the same kind about the same objects.
pub open spec fn spec_same_target(left: RubyEvent, right: RubyEvent) -> bool {
    &&& left.kind == right.kind
    &&& left.workspace == right.workspace
    &&& left.window == right.window
    &&& left.tab == right.tab
    &&& left.pane == right.pane
}

fn raw_workspace(id: Option<WorkspaceId>) -> (r: Option<u64>)
    ensures
        r == (match id {
            Some(w) => Some(w.0),
            None => None::<u64>,
        }),
{
    match id {
        Some(w) => Some(w.0),
        None => None,
    }
}

fn raw_window(id: Option<WindowId>) -> (r: Option<u64>)
    ensures
        r == (match id {
            Some(w) => Some(w.0),
            None => None::<u64>,
        }),
{
    match id {
        Some(w) => Some(w.0),
        None => None,
    }
}

fn raw_tab(id: Option<TabId>) -> (r: Option<u64>)
    ensures
        r == (match id {
            Some(w) => Some(w.0),
            None => None::<u64>,
        }),
{
    match id {
        Some(w) => Some(w.0),
        None => None,
    }
}

fn raw_pane(id: Option<PaneId>) -> (r: Option<u64>)
    ensures
        r == (match id {
            Some(w) => Some(w.0),
            None => None::<u64>,
        }),
{
    match id {
        Some(w) => Some(w.0),
        None => None,
    }
}

fn same_raw(a: Option<u64>, b: Option<u64>) -> (r: bool)
    ensures
        r == (a == b),
{
    match (a, b) {
        (Some(x), Some(y)) => x == y,
        (None, None) => true,
        _ => false,
    }
}

/// Whether two events have the same kind and concern the same objects.
pub fn same_event_target(left: &RubyEvent, right: &RubyEvent) -> (r: bool)
    ensures
        r == spec_same_target(*left, *right),
{
    left.kind == right.kind && same_raw(raw_workspace(left.workspace), raw_workspace(right.workspace))
        && same_raw(raw_window(left.window), raw_window(right.window)) && same_raw(
        raw_tab(left.tab),
        raw_tab(right.tab),
    ) && same_raw(raw_pane(left.pane), raw_pane(right.pane))
}

/// Whether queued work is an event about the same objects as `event`.
pub open spec fn queued_same_target(entry: (u64, ScriptInvocation), event: RubyEvent) -> bool {
    entry.1 matches ScriptInvocation::Event(queued) && spec_same_target(queued, event)
}

/// The position of the newest queued event about the same objects as `event`.
pub open spec fn last_same_target(q: Seq<(u64, ScriptInvocation)>, event: RubyEvent) -> Option<int>
    decreases q.len(),
{
    if q.len() == 0 {
        None
    } else if queued_same_target(q.last(), event) {
        Some(q.len() - 1)
    } else {
        last_same_target(q.drop_last(), event)
    }
}

/// How many events wait in `q`.
pub open spec fn event_count(q: Seq<(u64, ScriptInvocation)>) -> nat
    decreases q.len(),
{
    if q.len() == 0 {
        0
    } else {
        event_count(q.drop_last()) + if q.last().1 is Event {
            1nat
        } else {
            0nat
        }
    }
}

/// Where the newest matching event is found, it is an event about the same objects.
pub proof fn lemma_last_same_target(q: Seq<(u64, ScriptInvocation)>, event: RubyEvent)
    ensures
        last_same_target(q, event) matches Some(j) ==> 0 <= j < q.len() && queued_same_target(
            q[j],
            event,
        ),
        last_same_target(q, event) is None ==> forall|j: int|
            0 <= j < q.len() ==> !queued_same_target(#[trigger] q[j], event),
    decreases q.len(),
{
    if q.len() > 0 {
        lemma_last_same_target(q.drop_last(), event);
        if !queued_same_target(q.last(), event) {
            assert forall|j: int| 0 <= j < q.len() - 1 implies q.drop_last()[j] == q[j] by {}
        }
    }
}

/// Adds work to the queue. Anything but an event is always queued. A state
/// event replaces the newest queued event of the same kind about the same
/// objects, keeping that entry's id; otherwise events are queued while fewer
/// than `MAX_PENDING_SCRIPT_EVENTS` events wait, and dropped beyond that.
pub fn enqueue_pending_script(
    queue: &mut VecDeque<(u64, ScriptInvocation)>,
    id: u64,
    invocation: ScriptInvocation,
) -> (r: PendingScriptEnqueue)
    ensures
        ({
            let q = old(queue)@;
            match invocation {
                ScriptInvocation::Event(event) => {
                    if spec_is_coalescible(event.kind) && last_same_target(q, event) is Some {
                        let j = last_same_target(q, event)->0;
                        r == PendingScriptEnqueue::Coalesced && final(queue)@ == q.update(
                            j,
                            (q[j].0, ScriptInvocation::Event(event)),
                        )
                    } else if event_count(q) < MAX_PENDING_SCRIPT_EVENTS {
                        r == PendingScriptEnqueue::Queued && final(queue)@ == q.push(
                            (id, ScriptInvocation::Event(event)),
                        )
                    } else {
                        r == PendingScriptEnqueue::Dropped && final(queue)@ == q
                    }
                },
                _ => r == PendingScriptEnqueue::Queued && final(queue)@ == q.push((id, invocation)),
            }
        }),
{
    let ghost q = queue@;
    let event = match invocation {
        ScriptInvocation::Event(event) => event,
        other => {
            queue.push_back((id, other));
            return PendingScriptEnqueue::Queued;
        },
    };
    if is_coalescible_event(event.kind) {
        let mut i: usize = queue.len();
        proof {
            assert(q.take(q.len() as int) =~= q);
        }
        while i > 0
            invariant
                queue@ == q,
                q == old(queue)@,
                invocation == ScriptInvocation::Event(event),
                spec_is_coalescible(event.kind),
                i <= q.len(),
                last_same_target(q, event) == last_same_target(q.take(i as int), event),
            decreases i,
        {
            let matched = match &queue[i - 1].1 {
                ScriptInvocation::Event(queued) => same_event_target(queued, &event),
                _ => false,
            };
            proof {
                let t = q.take(i as int);
                assert(t.last() == q[i - 1]);
                assert(t.drop_last() =~= q.take(i - 1));
                assert(matched == queued_same_target(q[i - 1], event));
            }
            if matched {
                let entry_id = queue[i - 1].0;
                queue.remove(i - 1);
                queue.insert(i - 1, (entry_id, ScriptInvocation::Event(event)));
                proof {
                    let t = q.take(i as int);
                    assert(queued_same_target(t.last(), event));
                    assert(last_same_target(t, event) == Some((i - 1) as int));
                    assert(last_same_target(q, event) == Some((i - 1) as int));
                    assert(queue@ =~= q.update(i - 1, (q[i - 1].0, ScriptInvocation::Event(event))));
                }
                return PendingScriptEnqueue::Coalesced;
            }
            i = i - 1;
        }
        proof {
            assert(q.take(0) =~= Seq::<(u64, ScriptInvocation)>::empty());
        }
    }
    let mut pending_events: usize = 0;
    let mut k: usize = 0;
    while k < queue.len()
        invariant
            queue@ == q,
            q == old(queue)@,
            invocation == ScriptInvocation::Event(event),
            spec_is_coalescible(event.kind) ==> last_same_target(q, event) is None,
            k <= q.len(),
            pending_events == event_count(q.take(k as int)),
            pending_events <= k,
        decreases q.len() - k,
    {
        proof {
            let t = q.take(k + 1);
            assert(t.last() == q[k as int]);
            assert(t.drop_last() =~= q.take(k as int));
        }
        if let ScriptInvocation::Event(_) = &queue[k].1 {
            pending_events = pending_events + 1;
        }
        k = k + 1;
    }
    proof {
        assert(q.take(k as int) =~= q);
    }
    if pending_events < MAX_PENDING_SCRIPT_EVENTS {
        queue.push_back((id, ScriptInvocation::Event(event)));
        return PendingScriptEnqueue::Queued;
    }
    PendingScriptEnqueue::Dropped
}

/// The waiting work of the scripting runtime and its bookkeeping.
pub struct ScriptQueue {
    pub pending: VecDeque<(u64, ScriptInvocation)>,
    /// The id handed to the next request; never zero.
    pub next_request_id: u64,
    /// How many events were dropped because the queue was full.
    pub event_drops: u64,
    /// Whether a request is being run.
    pub in_flight: bool,
}

/// The id after `id`, wrapping past the largest id to 1 so that 0 is never handed out.
pub open spec fn following_request_id(id: u64) -> u64 {
    if id == u64::MAX {
        1
    } else {
        (id + 1) as u64
    }
}

impl ScriptQueue {
    /// An empty queue whose first request gets id 1.
    pub fn new() -> (q: ScriptQueue)
        ensures
            q.pending@ == Seq::<(u64, ScriptInvocation)>::empty(),
            q.next_request_id == 1,
            q.event_drops == 0,
            !q.in_flight,
    {
        ScriptQueue { pending: VecDeque::new(), next_request_id: 1, event_drops: 0, in_flight: false }
    }

    /// Queues `invocation` under the next request id, counting dropped events.
    pub fn enqueue(&mut self, invocation: ScriptInvocation) -> (r: (u64, PendingScriptEnqueue))
        ensures
            r.0 == old(self).next_request_id,
            final(self).next_request_id == following_request_id(old(self).next_request_id),
            final(self).in_flight == old(self).in_flight,
            final(self).event_drops == if r.1 == PendingScriptEnqueue::Dropped {
                if old(self).event_drops == u64::MAX {
                    u64::MAX
                } else {
                    (old(self).event_drops + 1) as u64
                }
            } else {
                old(self).event_drops
            },
            ({
                let q = old(self).pending@;
                let id = old(self).next_request_id;
                match invocation {
                    ScriptInvocation::Event(event) => {
                        if spec_is_coalescible(event.kind) && last_same_target(q, event) is Some {
                            let j = last_same_target(q, event)->0;
                            r.1 == PendingScriptEnqueue::Coalesced && final(self).pending@
                                == q.update(j, (q[j].0, ScriptInvocation::Event(event)))
                        } else if event_count(q) < MAX_PENDING_SCRIPT_EVENTS {
                            r.1 == PendingScriptEnqueue::Queued && final(self).pending@ == q.push(
                                (id, ScriptInvocation::Event(event)),
                            )
                        } else {
                            r.1 == PendingScriptEnqueue::Dropped && final(self).pending@ == q
                        }
                    },
                    _ => r.1 == PendingScriptEnqueue::Queued && final(self).pending@ == q.push(
                        (id, invocation),
                    ),
                }
            }),
    {
        let id = self.next_request_id;
        self.next_request_id = if id == u64::MAX {
            1
        } else {
            id + 1
        };
        let outcome = enqueue_pending_script(&mut self.pending, id, invocation);
        if outcome == PendingScriptEnqueue::Dropped {
            self.event_drops = if self.event_drops == u64::MAX {
                u64::MAX
            } else {
                self.event_drops + 1
            };
        }
        (id, outcome)
    }

    /// The oldest waiting request, unless a request is being run.
    pub fn take_next(&mut self) -> (r: Option<(u64, ScriptInvocation)>)
        ensures
            final(self).next_request_id == old(self).next_request_id,
            final(self).event_drops == old(self).event_drops,
            final(self).in_flight == old(self).in_flight,
            if old(self).in_flight || old(self).pending@.len() == 0 {
                r is None && final(self).pending@ == old(self).pending@
            } else {
                r == Some(old(self).pending@[0]) && final(self).pending@ == old(
                    self,
                ).pending@.drop_first()
            },
    {
        if self.in_flight {
            return None;
        }
        self.pending.pop_front()
    }
}

/// Another handle to the value that `shared` holds.
#[verifier::external_body]
fn share<T>(shared: &Arc<T>) -> (r: Arc<T>)
    ensures
        r == *shared,
{
    Arc::clone(shared)
}

/// Shares `value` through `cached`: the cached snapshot is handed out
/// again when it equals `value`; otherwise `value` becomes the cached
/// snapshot. The flag says whether the cached one was reused.
pub fn reuse_immutable_snapshot<T: PartialEq>(cached: &mut Option<Arc<T>>, value: T) -> (r: (
    Arc<T>,
    bool,
))
    ensures
        r.1 ==> (*old(cached) matches Some(current) && *final(cached) == *old(cached) && r.0
            == current && (<T as PartialEqSpec>::obeys_eq_spec() ==> (*current).eq_spec(&value))),
        !r.1 ==> *r.0 == value && *final(cached) == Some(r.0),
        !r.1 && <T as PartialEqSpec>::obeys_eq_spec() ==> (*old(cached) matches Some(current) ==> !(
        *current).eq_spec(&value)),
{
    let equal = match cached.as_ref() {
        Some(current) => {
            let inner: &T = &**current;
            *inner == value
        },
        None => false,
    };
    if equal {
        match cached.as_ref() {
            Some(current) => {
                return (share(current), true);
            },
            None => {},
        }
    }
    let shared = Arc::new(value);
    *cached = Some(share(&shared));
    (shared, false)
}

} // verus!
