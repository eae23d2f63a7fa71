//! The bookkeeping of the desktop-notification worker: which shown
//! notifications it still tracks, oldest first, when each expires, and
//! which one gives way when too many are tracked.
use vstd::prelude::*;

verus! {

/// The most notifications the worker tracks at once.
pub const MAX_TRACKED_NOTIFICATIONS: usize = 128;

/// How long the worker waits for a request when nothing is due to expire,
/// in milliseconds.
pub const IDLE_WAIT_MS: u64 = 3600000;

/// How the worker knows a shown notification: by the id the program gave
/// it, or by a number of its own.
#[derive(Clone, Copy, Debug, PartialEq, Eq, Hash, Structural)]
pub enum NotificationKey {
    Identified(u32),
    Anonymous(u64),
}

/// A tracked notification and the time it expires, if it does.
pub type TrackedEntry = (NotificationKey, Option<u64>);

/// No key is tracked twice.
pub open spec fn distinct_keys(entries: Seq<TrackedEntry>) -> bool {
    forall|i: int, j: int| 0 <= i < j < entries.len() ==> entries[i].0 != entries[j].0
}

/// Whether `key` is tracked.
pub open spec fn tracks(entries: Seq<TrackedEntry>, key: NotificationKey) -> bool {
    exists|i: int| 0 <= i < entries.len() && (#[trigger] entries[i]).0 == key
}

/// Whether an entry is due at `now`.
pub open spec fn is_due(entry: TrackedEntry, now: u64) -> bool {
    entry.1 matches Some(deadline) && deadline <= now
}

/// The entries that are not due at `now`, in order.
pub open spec fn not_due(entries: Seq<TrackedEntry>, now: u64) -> Seq<TrackedEntry>
    decreases entries.len(),
{
    if entries.len() == 0 {
        Seq::empty()
    } else if is_due(entries.last(), now) {
        not_due(entries.drop_last(), now)
    } else {
        not_due(entries.drop_last(), now).push(entries.last())
    }
}

/// The keys of the entries that are due at `now`, in order.
pub open spec fn due_keys(entries: Seq<TrackedEntry>, now: u64) -> Seq<NotificationKey>
    decreases entries.len(),
{
    if entries.len() == 0 {
        Seq::empty()
    } else if is_due(entries.last(), now) {
        due_keys(entries.drop_last(), now).push(entries.last().0)
    } else {
        due_keys(entries.drop_last(), now)
    }
}

/// The entries without the one for `key`, in order.
pub open spec fn without_key(entries: Seq<TrackedEntry>, key: NotificationKey) -> Seq<TrackedEntry>
    decreases entries.len(),
{
    if entries.len() == 0 {
        Seq::empty()
    } else if entries.last().0 == key {
        without_key(entries.drop_last(), key)
    } else {
        without_key(entries.drop_last(), key).push(entries.last())
    }
}

/// The time a notification shown at `now` for `timeout_ms` expires: never
/// for no timeout or a zero one, nor when the time would overflow.
pub open spec fn deadline_for(timeout_ms: Option<u32>, now: u64) -> Option<u64> {
    match timeout_ms {
        Some(ms) => if ms > 0 && now + ms <= u64::MAX {
            Some((now + ms) as u64)
        } else {
            None
        },
        None => None,
    }
}

/// How long until the first entry is due, from `now`: none when no entry
/// expires.
pub open spec fn soonest_wait(entries: Seq<TrackedEntry>, now: u64) -> Option<u64>
    decreases entries.len(),
{
    if entries.len() == 0 {
        None
    } else {
        let rest = soonest_wait(entries.drop_last(), now);
        match entries.last().1 {
            None => rest,
            Some(deadline) => {
                let wait: u64 = if deadline <= now {
                    0
                } else {
                    (deadline - now) as u64
                };
                match rest {
                    Some(w) => if w <= wait {
                        Some(w)
                    } else {
                        Some(wait)
                    },
                    None => Some(wait),
                }
            },
        }
    }
}

proof fn lemma_without_key(entries: Seq<TrackedEntry>, key: NotificationKey)
    requires
        distinct_keys(entries),
    ensures
        distinct_keys(without_key(entries, key)),
        !tracks(without_key(entries, key), key),
        forall|k: NotificationKey| k != key ==> (tracks(without_key(entries, key), k) <==> tracks(entries, k)),
        without_key(entries, key).len() == if tracks(entries, key) {
            entries.len() - 1
        } else {
            entries.len() as int
        },
        !tracks(entries, key) ==> without_key(entries, key) == entries,
    decreases entries.len(),
{
    if entries.len() > 0 {
        let init = entries.drop_last();
        assert(distinct_keys(init));
        lemma_without_key(init, key);
        let rest = without_key(init, key);
        let last = entries.last();
        assert forall|k: NotificationKey| #[trigger] tracks(entries, k) <==> (tracks(init, k) || last.0 == k) by {
            if tracks(entries, k) {
                let i = choose|i: int| 0 <= i < entries.len() && (#[trigger] entries[i]).0 == k;
                if i < init.len() {
                    assert(init[i] == entries[i]);
                }
            }
            if tracks(init, k) {
                let i = choose|i: int| 0 <= i < init.len() && (#[trigger] init[i]).0 == k;
                assert(entries[i] == init[i]);
            }
            if last.0 == k {
                assert(entries[entries.len() - 1] == last);
            }
        }
        if last.0 != key {
            let out = rest.push(last);
            assert(!tracks(init, last.0)) by {
                if tracks(init, last.0) {
                    let i = choose|i: int| 0 <= i < init.len() && (#[trigger] init[i]).0 == last.0;
                    assert(entries[i] == init[i]);
                }
            }
            assert(!tracks(rest, last.0));
            assert forall|k: NotificationKey| #[trigger] tracks(out, k) <==> (tracks(rest, k) || last.0 == k) by {
                if tracks(out, k) {
                    let i = choose|i: int| 0 <= i < out.len() && (#[trigger] out[i]).0 == k;
                    if i < rest.len() {
                        assert(rest[i] == out[i]);
                    }
                }
                if tracks(rest, k) {
                    let i = choose|i: int| 0 <= i < rest.len() && (#[trigger] rest[i]).0 == k;
                    assert(out[i] == rest[i]);
                }
                if last.0 == k {
                    assert(out[out.len() - 1] == last);
                }
            }
            assert forall|i: int, j: int| 0 <= i < j < out.len() implies out[i].0 != out[j].0 by {
                if j == rest.len() {
                    assert(out[i] == rest[i]);
                    if rest[i].0 == last.0 {
                        assert(tracks(rest, last.0));
                    }
                } else {
                    assert(out[i] == rest[i] && out[j] == rest[j]);
                }
            }
            if !tracks(entries, key) {
                assert(out =~= entries);
            }
        } else {
            assert(!tracks(init, key)) by {
                if tracks(init, key) {
                    let i = choose|i: int| 0 <= i < init.len() && (#[trigger] init[i]).0 == key;
                    assert(entries[i] == init[i]);
                    assert(entries[entries.len() - 1].0 == key);
                }
            }
        }
    }
}

/// The notifications the worker tracks, oldest first, with their expiry
/// times, and the number the next anonymous notification gets.
pub struct NotificationTracker {
    entries: Vec<TrackedEntry>,
    next_anonymous: u64,
}

impl View for NotificationTracker {
    type V = Seq<TrackedEntry>;

    closed spec fn view(&self) -> Seq<TrackedEntry> {
        self.entries@
    }
}

impl NotificationTracker {
    /// At most [`MAX_TRACKED_NOTIFICATIONS`] entries, each key once.
    #[verifier::type_invariant]
    spec fn bounded_distinct(self) -> bool {
        &&& self.entries@.len() <= MAX_TRACKED_NOTIFICATIONS
        &&& distinct_keys(self.entries@)
    }

    /// The number the next anonymous notification gets.
    pub closed spec fn spec_next_anonymous(&self) -> u64 {
        self.next_anonymous
    }

    /// A tracker with nothing tracked.
    pub fn new() -> (r: NotificationTracker)
        ensures
            r@ == Seq::<TrackedEntry>::empty(),
            r.spec_next_anonymous() == 0,
    {
        NotificationTracker { entries: Vec::new(), next_anonymous: 0 }
    }

    /// The tracked notifications, oldest first, with their expiry times.
    pub fn entries(&self) -> (r: &Vec<TrackedEntry>)
        ensures
            r@ == self@,
            r@.len() <= MAX_TRACKED_NOTIFICATIONS,
            distinct_keys(r@),
    {
        proof {
            use_type_invariant(self);
        }
        &self.entries
    }

    /// Stops tracking the notifications due at `now`, and names them, in
    /// the order they were shown, for the worker to close.
    pub fn expire(&mut self, now: u64) -> (r: Vec<NotificationKey>)
        ensures
            final(self)@ == not_due(old(self)@, now),
            r@ == due_keys(old(self)@, now),
            final(self).spec_next_anonymous() == old(self).spec_next_anonymous(),
    {
        proof {
            use_type_invariant(&*self);
        }
        let ghost before = self.entries@;
        let mut kept: Vec<TrackedEntry> = Vec::new();
        let mut due: Vec<NotificationKey> = Vec::new();
        let mut i: usize = 0;
        proof {
            assert(before.take(0) =~= Seq::<TrackedEntry>::empty());
        }
        while i < self.entries.len()
            invariant
                before == self.entries@,
                i <= before.len(),
                kept@ == not_due(before.take(i as int), now),
                due@ == due_keys(before.take(i as int), now),
                kept@.len() <= i,
                distinct_keys(before),
                forall|a: int, b: int| 0 <= a < b < kept@.len() ==> kept@[a].0 != kept@[b].0,
                forall|a: int| 0 <= a < kept@.len() ==> tracks(before.take(i as int), #[trigger] kept@[a].0),
            decreases before.len() - i,
        {
            let entry = self.entries[i];
            proof {
                assert(before.take(i + 1).drop_last() =~= before.take(i as int));
                assert(before.take(i + 1).last() == entry);
                assert forall|a: int| 0 <= a < kept@.len() implies kept@[a].0 != entry.0 by {
                    let k = kept@[a].0;
                    assert(tracks(before.take(i as int), k));
                    let m = choose|m: int| 0 <= m < i && (#[trigger] before.take(i as int)[m]).0 == k;
                    assert(before[m].0 == k);
                }
                assert forall|a: int| 0 <= a < kept@.len() implies tracks(before.take(i + 1), #[trigger] kept@[a].0) by {
                    let k = kept@[a].0;
                    let m = choose|m: int| 0 <= m < i && (#[trigger] before.take(i as int)[m]).0 == k;
                    assert(before.take(i + 1)[m] == before.take(i as int)[m]);
                }
                assert(before.take(i + 1)[i as int] == entry);
            }
            let due_now = match entry.1 {
                Some(deadline) => deadline <= now,
                None => false,
            };
            if due_now {
                due.push(entry.0);
            } else {
                kept.push(entry);
            }
            i = i + 1;
        }
        proof {
            assert(before.take(i as int) =~= before);
        }
        self.entries = kept;
        due
    }

    /// Stops tracking `key`, and says whether it was tracked.
    pub fn forget(&mut self, key: NotificationKey) -> (r: bool)
        ensures
            r == tracks(old(self)@, key),
            final(self)@ == without_key(old(self)@, key),
            final(self).spec_next_anonymous() == old(self).spec_next_anonymous(),
    {
        proof {
            use_type_invariant(&*self);
            lemma_without_key(self.entries@, key);
        }
        let ghost before = self.entries@;
        let mut kept: Vec<TrackedEntry> = Vec::new();
        let mut found = false;
        let mut i: usize = 0;
        proof {
            assert(before.take(0) =~= Seq::<TrackedEntry>::empty());
        }
        while i < self.entries.len()
            invariant
                before == self.entries@,
                i <= before.len(),
                kept@ == without_key(before.take(i as int), key),
                found == tracks(before.take(i as int), key),
                distinct_keys(before),
            decreases before.len() - i,
        {
            let entry = self.entries[i];
            proof {
                let t = before.take(i + 1);
                assert(t.drop_last() =~= before.take(i as int));
                assert(t.last() == entry);
                assert(t[i as int] == entry);
                assert(tracks(t, key) <==> (tracks(before.take(i as int), key) || entry.0 == key)) by {
                    if tracks(t, key) {
                        let m = choose|m: int| 0 <= m < t.len() && (#[trigger] t[m]).0 == key;
                        if m < i {
                            assert(before.take(i as int)[m] == t[m]);
                        }
                    }
                    if tracks(before.take(i as int), key) {
                        let m = choose|m: int| 0 <= m < i && (#[trigger] before.take(i as int)[m]).0 == key;
                        assert(t[m] == before.take(i as int)[m]);
                    }
                }
            }
            if entry.0 == key {
                found = true;
            } else {
                kept.push(entry);
            }
            i = i + 1;
        }
        proof {
            assert(before.take(i as int) =~= before);
            lemma_without_key(before, key);
        }
        self.entries = kept;
        found
    }

    /// Starts tracking a notification that was just shown at `now`: by
    /// the id the program gave it, else by the next anonymous number. A
    /// notification with that key already tracked gives way to it; when
    /// [`MAX_TRACKED_NOTIFICATIONS`] are tracked, the oldest one gives way
    /// and is named for the worker to close. It expires `timeout_ms` after
    /// `now` when that is given and not zero.
    pub fn track(&mut self, id: Option<u32>, timeout_ms: Option<u32>, now: u64) -> (r: (
        NotificationKey,
        Option<NotificationKey>,
    ))
        ensures
            r.0 == (match id {
                Some(i) => NotificationKey::Identified(i),
                None => NotificationKey::Anonymous(old(self).spec_next_anonymous()),
            }),
            final(self).spec_next_anonymous() == (if id is None {
                (if old(self).spec_next_anonymous() == u64::MAX {
                    0
                } else {
                    old(self).spec_next_anonymous() + 1
                }) as u64
            } else {
                old(self).spec_next_anonymous()
            }),
            old(self)@.len() >= MAX_TRACKED_NOTIFICATIONS && !tracks(old(self)@, r.0) ==> r.1 == Some(
                old(self)@[0].0,
            ) && final(self)@ == old(self)@.drop_first().push((r.0, deadline_for(timeout_ms, now))),
            !(old(self)@.len() >= MAX_TRACKED_NOTIFICATIONS && !tracks(old(self)@, r.0)) ==> r.1 is None
                && final(self)@ == without_key(old(self)@, r.0).push((r.0, deadline_for(timeout_ms, now))),
    {
        proof {
            use_type_invariant(&*self);
        }
        let key = match id {
            Some(i) => NotificationKey::Identified(i),
            None => {
                let k = NotificationKey::Anonymous(self.next_anonymous);
                self.next_anonymous = if self.next_anonymous == u64::MAX {
                    0
                } else {
                    self.next_anonymous + 1
                };
                k
            },
        };
        let deadline: Option<u64> = match timeout_ms {
            Some(ms) => {
                if ms > 0 && now <= u64::MAX - ms as u64 {
                    Some(now + ms as u64)
                } else {
                    None
                }
            },
            None => None,
        };
        let ghost before = self.entries@;
        let present = self.contains(key);
        let mut entries: Vec<TrackedEntry> = Vec::new();
        std::mem::swap(&mut entries, &mut self.entries);
        if entries.len() >= MAX_TRACKED_NOTIFICATIONS && !present {
            let oldest = entries.remove(0);
            entries.push((key, deadline));
            proof {
                assert(entries@ =~= before.drop_first().push((key, deadline)));
                assert forall|a: int, b: int| 0 <= a < b < entries@.len() implies entries@[a].0 != entries@[b].0 by {
                    if b == entries@.len() - 1 {
                        assert(entries@[a] == before[a + 1]);
                        if before[a + 1].0 == key {
                            assert(tracks(before, key));
                        }
                    } else {
                        assert(entries@[a] == before[a + 1] && entries@[b] == before[b + 1]);
                    }
                }
            }
            std::mem::swap(&mut entries, &mut self.entries);
            return (key, Some(oldest.0));
        }
        let mut kept = without_key_exec(&entries, key);
        proof {
            lemma_without_key(before, key);
        }
        kept.push((key, deadline));
        proof {
            let rest = without_key(before, key);
            assert forall|a: int, b: int| 0 <= a < b < kept@.len() implies kept@[a].0 != kept@[b].0 by {
                if b == kept@.len() - 1 {
                    assert(kept@[a] == rest[a]);
                    if rest[a].0 == key {
                        assert(tracks(rest, key));
                    }
                } else {
                    assert(kept@[a] == rest[a] && kept@[b] == rest[b]);
                }
            }
        }
        self.entries = kept;
        (key, None)
    }

    /// Whether `key` is tracked.
    pub fn contains(&self, key: NotificationKey) -> (r: bool)
        ensures
            r == tracks(self@, key),
    {
        let mut i: usize = 0;
        while i < self.entries.len()
            invariant
                i <= self.entries@.len(),
                forall|m: int| 0 <= m < i ==> (#[trigger] self.entries@[m]).0 != key,
            decreases self.entries@.len() - i,
        {
            if self.entries[i].0 == key {
                return true;
            }
            i = i + 1;
        }
        false
    }

    /// How long the worker may wait for a request at `now`: until the
    /// first tracked notification is due, or [`IDLE_WAIT_MS`] when none
    /// expires.
    pub fn next_wait(&self, now: u64) -> (r: u64)
        ensures
            r == (match soonest_wait(self@, now) {
                Some(w) => w,
                None => IDLE_WAIT_MS,
            }),
    {
        let mut best: Option<u64> = None;
        let mut i: usize = 0;
        proof {
            assert(self.entries@.take(0) =~= Seq::<TrackedEntry>::empty());
        }
        while i < self.entries.len()
            invariant
                i <= self.entries@.len(),
                best == soonest_wait(self.entries@.take(i as int), now),
            decreases self.entries@.len() - i,
        {
            proof {
                assert(self.entries@.take(i + 1).drop_last() =~= self.entries@.take(i as int));
                assert(self.entries@.take(i + 1).last() == self.entries@[i as int]);
            }
            match self.entries[i].1 {
                None => {},
                Some(deadline) => {
                    let wait = if deadline <= now {
                        0
                    } else {
                        deadline - now
                    };
                    best = match best {
                        Some(w) => if w <= wait {
                            Some(w)
                        } else {
                            Some(wait)
                        },
                        None => Some(wait),
                    };
                },
            }
            i = i + 1;
        }
        proof {
            assert(self.entries@.take(i as int) =~= self.entries@);
        }
        match best {
            Some(w) => w,
            None => IDLE_WAIT_MS,
        }
    }
}

/// The entries without the one for `key`.
fn without_key_exec(entries: &Vec<TrackedEntry>, key: NotificationKey) -> (r: Vec<TrackedEntry>)
    ensures
        r@ == without_key(entries@, key),
{
    let mut kept: Vec<TrackedEntry> = Vec::new();
    let mut i: usize = 0;
    proof {
        assert(entries@.take(0) =~= Seq::<TrackedEntry>::empty());
    }
    while i < entries.len()
        invariant
            i <= entries@.len(),
            kept@ == without_key(entries@.take(i as int), key),
        decreases entries@.len() - i,
    {
        proof {
            assert(entries@.take(i + 1).drop_last() =~= entries@.take(i as int));
            assert(entries@.take(i + 1).last() == entries@[i as int]);
        }
        if entries[i].0 != key {
            kept.push(entries[i]);
        }
        i = i + 1;
    }
    proof {
        assert(entries@.take(i as int) =~= entries@);
    }
    kept
}

} // verus!
