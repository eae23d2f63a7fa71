//! The upload sessions that programs in panes keep open: a session is found,
//! replaced or dropped by its pane and its name, and closing a pane drops
//! all of its sessions.
use vstd::prelude::*;
use crate::api::PaneId;
use crate::downloads::{upload_status, upload_status_report};
use crate::text::same_text;

verus! {

/// Each pane names each of its sessions once.
pub open spec fn session_keys_distinct<T>(s: Seq<(PaneId, Seq<char>, T)>) -> bool {
    forall|i: int, j: int|
        0 <= i < j < s.len() ==> (#[trigger] s[i]).0 != (#[trigger] s[j]).0 || s[i].1 != s[j].1
}

/// Whether the session `id` of `pane` is open.
pub open spec fn holds_session<T>(s: Seq<(PaneId, Seq<char>, T)>, pane: PaneId, id: Seq<char>) -> bool {
    exists|i: int| 0 <= i < s.len() && (#[trigger] s[i]).0 == pane && s[i].1 == id
}

/// The open sessions, each with the data `T` that it serves.
pub struct UploadSessions<T> {
    entries: Vec<(PaneId, String, T)>,
}

impl<T> UploadSessions<T> {
    /// The sessions in the order they were opened: pane, name and data.
    pub closed spec fn sessions(&self) -> Seq<(PaneId, Seq<char>, T)> {
        self.entries@.map_values(|e: (PaneId, String, T)| (e.0, e.1@, e.2))
    }

    #[verifier::type_invariant]
    spec fn keys_distinct(self) -> bool {
        session_keys_distinct(self.sessions())
    }

    /// No session open.
    pub fn new() -> (r: Self)
        ensures
            r.sessions() == Seq::<(PaneId, Seq<char>, T)>::empty(),
            session_keys_distinct(r.sessions()),
    {
        let r = UploadSessions { entries: Vec::new() };
        proof {
            assert(r.sessions() =~= Seq::<(PaneId, Seq<char>, T)>::empty());
        }
        r
    }

    fn index_of(&self, pane: PaneId, id: &str) -> (r: Option<usize>)
        ensures
            match r {
                Some(i) => i < self.sessions().len() && self.sessions()[i as int].0 == pane
                    && self.sessions()[i as int].1 == id@,
                None => !holds_session(self.sessions(), pane, id@),
            },
    {
        let mut i: usize = 0;
        while i < self.entries.len()
            invariant
                i <= self.entries@.len(),
                forall|k: int|
                    0 <= k < i ==> (#[trigger] self.sessions()[k]).0 != pane
                        || self.sessions()[k].1 != id@,
            decreases self.entries@.len() - i,
        {
            assert(self.sessions()[i as int].1 == self.entries@[i as int].1@);
            if self.entries[i].0 == pane && same_text(self.entries[i].1.as_str(), id) {
                return Some(i);
            }
            i = i + 1;
        }
        None
    }

    /// The data of the session `id` of `pane`, if it is open.
    pub fn get(&self, pane: PaneId, id: &str) -> (r: Option<&T>)
        ensures
            match r {
                Some(data) => exists|i: int|
                    0 <= i < self.sessions().len() && self.sessions()[i].0 == pane
                        && self.sessions()[i].1 == id@ && self.sessions()[i].2 == *data,
                None => !holds_session(self.sessions(), pane, id@),
            },
    {
        match self.index_of(pane, id) {
            Some(i) => {
                assert(self.sessions()[i as int].2 == self.entries@[i as int].2);
                Some(&self.entries[i].2)
            },
            None => None,
        }
    }

    /// Opens the session `id` of `pane` with `data`, in place of one of the
    /// same name.
    pub fn insert(&mut self, pane: PaneId, id: String, data: T)
        ensures
            holds_session(old(self).sessions(), pane, id@) ==> exists|i: int|
                0 <= i < old(self).sessions().len() && old(self).sessions()[i].0 == pane
                    && old(self).sessions()[i].1 == id@ && final(self).sessions() == old(
                    self,
                ).sessions().update(i, (pane, id@, data)),
            !holds_session(old(self).sessions(), pane, id@) ==> final(self).sessions() == old(
                self,
            ).sessions().push((pane, id@, data)),
            session_keys_distinct(final(self).sessions()),
    {
        proof {
            use_type_invariant(&*self);
        }
        let ghost before = self.sessions();
        let ghost key = id@;
        let found = self.index_of(pane, id.as_str());
        let mut entries: Vec<(PaneId, String, T)> = Vec::new();
        std::mem::swap(&mut entries, &mut self.entries);
        match found {
            Some(i) => {
                entries.set(i, (pane, id, data));
                let ghost after = entries@.map_values(|e: (PaneId, String, T)| (e.0, e.1@, e.2));
                proof {
                    assert(after =~= before.update(i as int, (pane, key, data)));
                    assert forall|a: int, b: int| 0 <= a < b < after.len() implies (#[trigger] after[a]).0
                        != (#[trigger] after[b]).0 || after[a].1 != after[b].1 by {
                        assert(after[a].0 == before[a].0 && after[a].1 == before[a].1);
                        assert(after[b].0 == before[b].0 && after[b].1 == before[b].1);
                    }
                }
            },
            None => {
                entries.push((pane, id, data));
                let ghost after = entries@.map_values(|e: (PaneId, String, T)| (e.0, e.1@, e.2));
                proof {
                    assert(after =~= before.push((pane, key, data)));
                    assert forall|a: int, b: int| 0 <= a < b < after.len() implies (#[trigger] after[a]).0
                        != (#[trigger] after[b]).0 || after[a].1 != after[b].1 by {
                        assert(after[a] == before[a]);
                        if b < before.len() {
                            assert(after[b] == before[b]);
                        }
                    }
                }
            },
        }
        self.entries = entries;
    }

    /// Closes the session `id` of `pane`, and says whether it was open.
    pub fn remove(&mut self, pane: PaneId, id: &str) -> (r: bool)
        ensures
            r == holds_session(old(self).sessions(), pane, id@),
            r ==> exists|i: int|
                0 <= i < old(self).sessions().len() && old(self).sessions()[i].0 == pane
                    && old(self).sessions()[i].1 == id@ && final(self).sessions() == old(
                    self,
                ).sessions().remove(i),
            !r ==> final(self).sessions() == old(self).sessions(),
            !holds_session(final(self).sessions(), pane, id@),
            session_keys_distinct(final(self).sessions()),
    {
        proof {
            use_type_invariant(&*self);
        }
        let ghost before = self.sessions();
        match self.index_of(pane, id) {
            Some(i) => {
                let mut entries: Vec<(PaneId, String, T)> = Vec::new();
                std::mem::swap(&mut entries, &mut self.entries);
                entries.remove(i);
                let ghost after = entries@.map_values(|e: (PaneId, String, T)| (e.0, e.1@, e.2));
                proof {
                    assert(after =~= before.remove(i as int));
                    assert forall|a: int, b: int| 0 <= a < b < after.len() implies (#[trigger] after[a]).0
                        != (#[trigger] after[b]).0 || after[a].1 != after[b].1 by {
                        let a0 = if a < i { a } else { a + 1 };
                        let b0 = if b < i { b } else { b + 1 };
                        assert(after[a] == before[a0]);
                        assert(after[b] == before[b0]);
                    }
                    if holds_session(after, pane, id@) {
                        let m = choose|m: int|
                            0 <= m < after.len() && (#[trigger] after[m]).0 == pane && after[m].1 == id@;
                        let m0 = if m < i { m } else { m + 1 };
                        assert(after[m] == before[m0]);
                        if m0 < i {
                            assert(before[m0].0 != before[i as int].0 || before[m0].1 != before[i as int].1);
                        } else {
                            assert(before[i as int].0 != before[m0].0 || before[i as int].1 != before[m0].1);
                        }
                    }
                }
                self.entries = entries;
                true
            },
            None => false,
        }
    }

    /// Closes every session of `pane`.
    pub fn remove_pane(&mut self, pane: PaneId)
        ensures
            final(self).sessions() == old(self).sessions().filter(
                |e: (PaneId, Seq<char>, T)| e.0 != pane,
            ),
            session_keys_distinct(final(self).sessions()),
    {
        proof {
            use_type_invariant(&*self);
        }
        let ghost before = self.sessions();
        let ghost keep = |e: (PaneId, Seq<char>, T)| e.0 != pane;
        let mut rest: Vec<(PaneId, String, T)> = Vec::new();
        std::mem::swap(&mut rest, &mut self.entries);
        let mut kept: Vec<(PaneId, String, T)> = Vec::new();
        let n: usize = rest.len();
        proof {
            assert(before.len() == n);
        }
        let mut k: usize = 0;
        while rest.len() > 0
            invariant
                keep == (|e: (PaneId, Seq<char>, T)| e.0 != pane),
                k <= n,
                n == before.len(),
                rest@.map_values(|e: (PaneId, String, T)| (e.0, e.1@, e.2)) == before.skip(k as int),
                kept@.map_values(|e: (PaneId, String, T)| (e.0, e.1@, e.2)) == before.take(
                    k as int,
                ).filter(keep),
            decreases rest@.len(),
        {
            proof {
                assert(rest@.len() == before.skip(k as int).len());
            }
            let e = rest.remove(0);
            proof {
                assert(before.skip(k as int)[0] == before[k as int]);
                assert(before.skip(k + 1) =~= before.skip(k as int).drop_first());
                assert(before.take(k + 1).drop_last() =~= before.take(k as int));
                assert(before.take(k + 1).last() == before[k as int]);
                reveal_with_fuel(Seq::filter, 2);
            }
            if e.0 != pane {
                kept.push(e);
                proof {
                    assert(kept@.map_values(|e: (PaneId, String, T)| (e.0, e.1@, e.2))
                        =~= before.take(k + 1).filter(keep));
                }
            }
            proof {
                assert(rest@.map_values(|e: (PaneId, String, T)| (e.0, e.1@, e.2))
                    =~= before.skip(k + 1));
            }
            k = k + 1;
        }
        let ghost after = kept@.map_values(|e: (PaneId, String, T)| (e.0, e.1@, e.2));
        proof {
            assert(k == n);
            assert(before.take(n as int) =~= before);
            lemma_filter_distinct(before, keep);
        }
        self.entries = kept;
    }
}

/// Dropping sessions keeps the names of the others distinct.
proof fn lemma_filter_distinct<T>(s: Seq<(PaneId, Seq<char>, T)>, keep: spec_fn((PaneId, Seq<char>, T)) -> bool)
    requires
        session_keys_distinct(s),
    ensures
        session_keys_distinct(s.filter(keep)),
    decreases s.len(),
{
    reveal_with_fuel(Seq::filter, 2);
    if s.len() > 0 {
        let rest = s.drop_last();
        assert(session_keys_distinct(rest)) by {
            assert forall|a: int, b: int| 0 <= a < b < rest.len() implies (#[trigger] rest[a]).0
                != (#[trigger] rest[b]).0 || rest[a].1 != rest[b].1 by {
                assert(rest[a] == s[a] && rest[b] == s[b]);
            }
        }
        lemma_filter_distinct(rest, keep);
        let fr = rest.filter(keep);
        if keep(s.last()) {
            let f = fr.push(s.last());
            assert(s.filter(keep) == f);
            assert forall|a: int, b: int| 0 <= a < b < f.len() implies (#[trigger] f[a]).0
                != (#[trigger] f[b]).0 || f[a].1 != f[b].1 by {
                if b == f.len() - 1 {
                    assert(f[a] == fr[a]);
                    assert(fr.contains(fr[a]));
                    rest.lemma_filter_contains_rev(keep, fr[a]);
                    let m = choose|m: int| 0 <= m < rest.len() && rest[m] == fr[a];
                    assert(s[m] == rest[m]);
                    assert(f[b] == s[s.len() - 1]);
                } else {
                    assert(f[a] == fr[a] && f[b] == fr[b]);
                }
            }
        } else {
            assert(s.filter(keep) == fr);
        }
    }
}

/// The answer to a request for data of an upload session that is not open.
pub fn unknown_session_reply(session_id: &str, file_id: &str) -> (r: String)
    ensures
        r@ == upload_status_report(session_id@, Some(file_id@), "ENOENT:Unknown upload session"@),
{
    upload_status(session_id, Some(file_id), "ENOENT:Unknown upload session")
}

} // verus!
