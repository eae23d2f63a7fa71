//! A selector overlay: a titled list that a script opens, filtered by a
//! case-insensitive query and navigated by line and by page.
use vstd::prelude::*;
use vstd::string::StrSliceExecFns;
use vstd::string::StringSliceAdditionalSpecFns;

use crate::palette::{find_bytes, first_match, lowered};
use crate::keys::{Key, NamedKey};
use crate::platform::ModifiersState;
use crate::text::{push_str, to_lowercase};

verus! {

/// How many entries a page step moves.
pub const PAGE_SIZE: usize = 10;

/// Whether `needle` occurs in `hay`.
pub open spec fn occurs_in(hay: Seq<u8>, needle: Seq<u8>) -> bool {
    first_match(hay, needle, 0) is Some
}

/// The positions of the items whose lower-case form contains `query`
/// (already lower-cased), in order.
pub open spec fn matching_indices(items: Seq<String>, query: Seq<u8>) -> Seq<usize>
    decreases items.len(),
{
    if items.len() == 0 {
        Seq::empty()
    } else {
        let rest = matching_indices(items.drop_last(), query);
        if occurs_in(lowered(items.last()@), query) {
            rest.push((items.len() - 1) as usize)
        } else {
            rest
        }
    }
}

/// An open selector.
#[derive(Debug)]
pub struct SelectorOverlay {
    pub id: u64,
    pub title: String,
    pub items: Vec<String>,
    pub query: String,
    pub selected: usize,
}

/// The lines of a selector to draw: the visible items, the position of the
/// selection among them, and how many items match.
pub struct SelectorLines<'a> {
    pub items: Vec<&'a str>,
    pub selected: Option<usize>,
    pub total: usize,
}

impl SelectorOverlay {
    /// The selected position among the matching items.
    pub open spec fn spec_selected(&self) -> usize {
        self.selected
    }

    /// The positions of the items that match the query.
    pub open spec fn spec_filtered(&self) -> Seq<usize> {
        matching_indices(self.items@, lowered(self.query@))
    }

    /// A selector of `items` with an empty query and the first item selected.
    pub fn new(id: u64, title: String, items: Vec<String>) -> (s: SelectorOverlay)
        ensures
            s.id == id,
            s.title == title,
            s.items == items,
            s.query@ == Seq::<char>::empty(),
            s.spec_selected() == 0,
    {
        SelectorOverlay { id, title, items, query: String::new(), selected: 0 }
    }

    /// Types `text` into the query; the selection returns to the first match.
    pub fn append_query(&mut self, text: &str)
        ensures
            final(self).query@ == old(self).query@ + text@,
            final(self).spec_selected() == 0,
            final(self).items == old(self).items,
            final(self).id == old(self).id,
            final(self).title == old(self).title,
    {
        push_str(&mut self.query, text);
        self.selected = 0;
    }

    /// Deletes the last character of the query, if any; the selection
    /// returns to the first match.
    pub fn pop_query(&mut self)
        ensures
            final(self).query@ == if old(self).query@.len() == 0 {
                old(self).query@
            } else {
                old(self).query@.drop_last()
            },
            final(self).spec_selected() == 0,
            final(self).items == old(self).items,
            final(self).id == old(self).id,
            final(self).title == old(self).title,
    {
        let n = self.query.as_str().unicode_len();
        if n > 0 {
            let shorter = self.query.as_str().substring_char(0, n - 1).to_owned();
            self.query = shorter;
            proof {
                assert(self.query@ =~= old(self).query@.drop_last());
            }
        }
        self.selected = 0;
    }

    fn filtered_indices(&self) -> (r: Vec<usize>)
        ensures
            r@ == self.spec_filtered(),
    {
        let query = to_lowercase(self.query.as_str());
        let q = query.as_str().as_bytes();
        let mut r: Vec<usize> = Vec::new();
        let mut i: usize = 0;
        proof {
            assert(self.items@.take(0) =~= Seq::<String>::empty());
        }
        while i < self.items.len()
            invariant
                i <= self.items@.len(),
                q@ == lowered(self.query@),
                r@ == matching_indices(self.items@.take(i as int), q@),
            decreases self.items@.len() - i,
        {
            let item = to_lowercase(self.items[i].as_str());
            let found = find_bytes(item.as_str().as_bytes(), q, 0, q.len(), 0);
            proof {
                let t = self.items@.take(i + 1);
                assert(t.drop_last() =~= self.items@.take(i as int));
                assert(t.last() == self.items@[i as int]);
                assert(q@.subrange(0, q@.len() as int) =~= q@);
            }
            match found {
                Some(_) => r.push(i),
                None => {},
            }
            i = i + 1;
        }
        proof {
            assert(self.items@.take(i as int) =~= self.items@);
        }
        r
    }

    /// Selects the previous match, wrapping to the last.
    pub fn move_previous(&mut self)
        ensures
            final(self).spec_selected() == if old(self).spec_filtered().len() == 0 {
                old(self).spec_selected()
            } else if old(self).spec_selected() == 0 {
                (old(self).spec_filtered().len() - 1) as usize
            } else {
                (old(self).spec_selected() - 1) as usize
            },
            final(self).query == old(self).query,
            final(self).items == old(self).items,
            final(self).id == old(self).id,
            final(self).title == old(self).title,
    {
        let count = self.filtered_indices().len();
        if count > 0 {
            self.selected = if self.selected == 0 {
                count - 1
            } else {
                self.selected - 1
            };
        }
    }

    /// Selects the next match, wrapping to the first.
    pub fn move_next(&mut self)
        ensures
            final(self).spec_selected() == if old(self).spec_filtered().len() == 0 {
                old(self).spec_selected()
            } else {
                ((old(self).spec_selected() + 1) % (old(self).spec_filtered().len() as int)) as usize
            },
            final(self).query == old(self).query,
            final(self).items == old(self).items,
            final(self).id == old(self).id,
            final(self).title == old(self).title,
    {
        let count = self.filtered_indices().len();
        if count > 0 {
            self.selected = if self.selected < count - 1 {
                proof {
                    assert((self.selected + 1) % (count as int) == self.selected + 1) by (nonlinear_arith)
                        requires
                            self.selected + 1 < count,
                    ;
                }
                self.selected + 1
            } else {
                ((self.selected as u128 + 1) % (count as u128)) as usize
            };
        }
    }

    /// Moves the selection a page back, stopping at the first match.
    pub fn page_previous(&mut self)
        ensures
            final(self).spec_selected() == if old(self).spec_selected() >= PAGE_SIZE {
                (old(self).spec_selected() - PAGE_SIZE) as usize
            } else {
                0
            },
            final(self).query == old(self).query,
            final(self).items == old(self).items,
            final(self).id == old(self).id,
            final(self).title == old(self).title,
    {
        self.selected = if self.selected >= PAGE_SIZE {
            self.selected - PAGE_SIZE
        } else {
            0
        };
    }

    /// Moves the selection a page on, stopping at the last match.
    pub fn page_next(&mut self)
        ensures
            final(self).spec_selected() == if old(self).spec_filtered().len() == 0 {
                old(self).spec_selected()
            } else {
                let ahead = if old(self).spec_selected() + PAGE_SIZE > usize::MAX {
                    usize::MAX as int
                } else {
                    old(self).spec_selected() + PAGE_SIZE
                };
                if ahead < old(self).spec_filtered().len() - 1 {
                    ahead as usize
                } else {
                    (old(self).spec_filtered().len() - 1) as usize
                }
            },
            final(self).query == old(self).query,
            final(self).items == old(self).items,
            final(self).id == old(self).id,
            final(self).title == old(self).title,
    {
        let count = self.filtered_indices().len();
        if count > 0 {
            let ahead = if self.selected > usize::MAX - PAGE_SIZE {
                usize::MAX
            } else {
                self.selected + PAGE_SIZE
            };
            self.selected = if ahead < count - 1 {
                ahead
            } else {
                count - 1
            };
        }
    }

    /// Selects the first match.
    pub fn move_first(&mut self)
        ensures
            final(self).spec_selected() == 0,
            final(self).query == old(self).query,
            final(self).items == old(self).items,
            final(self).id == old(self).id,
            final(self).title == old(self).title,
    {
        self.selected = 0;
    }

    /// Selects the last match (the first when nothing matches).
    pub fn move_last(&mut self)
        ensures
            final(self).spec_selected() == if old(self).spec_filtered().len() == 0 {
                0
            } else {
                (old(self).spec_filtered().len() - 1) as usize
            },
            final(self).query == old(self).query,
            final(self).items == old(self).items,
            final(self).id == old(self).id,
            final(self).title == old(self).title,
    {
        let count = self.filtered_indices().len();
        self.selected = if count == 0 {
            0
        } else {
            count - 1
        };
    }

    /// The selected item, if the selection lies among the matches.
    pub fn selected_item(&self) -> (r: Option<String>)
        ensures
            match r {
                Some(item) => self.spec_selected() < self.spec_filtered().len() && item
                    == self.items@[self.spec_filtered()[self.spec_selected() as int] as int],
                None => self.spec_selected() >= self.spec_filtered().len(),
            },
    {
        let indices = self.filtered_indices();
        if self.selected < indices.len() {
            let index = indices[self.selected];
            proof {
                lemma_matching_indices_bounds(self.items@, lowered(self.query@));
            }
            Some(self.items[index].clone())
        } else {
            None
        }
    }

    /// The lines to draw with at most `max_items` items (at least one): a
    /// window of the matches that keeps the selection near its middle.
    pub fn render_lines(&self, max_items: usize) -> (r: SelectorLines<'_>)
        ensures
            ({
                let f = self.spec_filtered();
                let count = f.len() as int;
                let m = if max_items == 0 {
                    1
                } else {
                    max_items as int
                };
                let back = if self.spec_selected() >= m / 2 {
                    self.spec_selected() - m / 2
                } else {
                    0
                };
                let last_start = if count >= m {
                    count - m
                } else {
                    0
                };
                let start = if back < last_start {
                    back
                } else {
                    last_start
                };
                let end = if start + m < count {
                    start + m
                } else {
                    count
                };
                &&& r.total == count
                &&& r.selected == if count > 0 {
                    Some(
                        (if self.spec_selected() >= start {
                            self.spec_selected() - start
                        } else {
                            0
                        }) as usize,
                    )
                } else {
                    None::<usize>
                }
                &&& r.items@.len() == end - start
                &&& forall|k: int|
                    0 <= k < end - start ==> (#[trigger] r.items@[k])@ == self.items@[f[start
                        + k] as int]@
            }),
    {
        let indices = self.filtered_indices();
        let count = indices.len();
        let m = if max_items == 0 {
            1
        } else {
            max_items
        };
        let back = if self.selected >= m / 2 {
            self.selected - m / 2
        } else {
            0
        };
        let last_start = if count >= m {
            count - m
        } else {
            0
        };
        let start = if back < last_start {
            back
        } else {
            last_start
        };
        let end = if m < count - start {
            start + m
        } else {
            count
        };
        proof {
            lemma_matching_indices_bounds(self.items@, lowered(self.query@));
        }
        let mut items: Vec<&str> = Vec::new();
        let mut k: usize = start;
        while k < end
            invariant
                start <= k <= end,
                end <= indices@.len(),
                indices@ == self.spec_filtered(),
                forall|j: int| 0 <= j < indices@.len() ==> indices@[j] < self.items@.len(),
                items@.len() == k - start,
                forall|j: int|
                    0 <= j < k - start ==> (#[trigger] items@[j])@ == self.items@[indices@[start
                        + j] as int]@,
            decreases end - k,
        {
            items.push(self.items[indices[k]].as_str());
            k = k + 1;
        }
        let selected = if count > 0 {
            Some(
                if self.selected >= start {
                    self.selected - start
                } else {
                    0
                },
            )
        } else {
            None
        };
        SelectorLines { items, selected, total: count }
    }
}

/// Every matching position names an item.
pub proof fn lemma_matching_indices_bounds(items: Seq<String>, query: Seq<u8>)
    ensures
        forall|j: int|
            0 <= j < matching_indices(items, query).len() ==> #[trigger] matching_indices(
                items,
                query,
            )[j] < items.len(),
    decreases items.len(),
{
    if items.len() > 0 {
        lemma_matching_indices_bounds(items.drop_last(), query);
        let rest = matching_indices(items.drop_last(), query);
        let all = matching_indices(items, query);
        assert forall|j: int| 0 <= j < all.len() implies #[trigger] all[j] < items.len() by {
            if j < rest.len() {
                assert(all[j] == rest[j]);
            }
        }
    }
}

/// The selection after a step back, wrapping to the last match.
pub open spec fn previous_selection(s: SelectorOverlay) -> usize {
    if s.spec_filtered().len() == 0 {
        s.spec_selected()
    } else if s.spec_selected() == 0 {
        (s.spec_filtered().len() - 1) as usize
    } else {
        (s.spec_selected() - 1) as usize
    }
}

/// The selection after a step on, wrapping to the first match.
pub open spec fn next_selection(s: SelectorOverlay) -> usize {
    if s.spec_filtered().len() == 0 {
        s.spec_selected()
    } else {
        ((s.spec_selected() + 1) % (s.spec_filtered().len() as int)) as usize
    }
}

/// The selection after a page back.
pub open spec fn page_previous_selection(s: SelectorOverlay) -> usize {
    if s.spec_selected() >= PAGE_SIZE {
        (s.spec_selected() - PAGE_SIZE) as usize
    } else {
        0
    }
}

/// The selection after a page on, stopping at the last match.
pub open spec fn page_next_selection(s: SelectorOverlay) -> usize {
    if s.spec_filtered().len() == 0 {
        s.spec_selected()
    } else {
        let ahead = if s.spec_selected() + PAGE_SIZE > usize::MAX {
            usize::MAX as int
        } else {
            s.spec_selected() + PAGE_SIZE
        };
        if ahead < s.spec_filtered().len() - 1 {
            ahead as usize
        } else {
            (s.spec_filtered().len() - 1) as usize
        }
    }
}

/// The selection of the last match.
pub open spec fn last_selection(s: SelectorOverlay) -> usize {
    if s.spec_filtered().len() == 0 {
        0
    } else {
        (s.spec_filtered().len() - 1) as usize
    }
}

/// `s` with the selection `selected`.
pub open spec fn with_selection(s: SelectorOverlay, selected: usize) -> SelectorOverlay {
    SelectorOverlay { selected, ..s }
}

/// `s` with the query `query` and the first match selected.
pub open spec fn with_query(s: SelectorOverlay, query: Seq<char>, t: SelectorOverlay) -> bool {
    t.query@ == query && t.selected == 0 && t.id == s.id && t.title == s.title && t.items == s.items
}

/// What closing a selector answers: its id and the chosen item, if any.
#[derive(Debug, PartialEq, Eq)]
pub struct SelectorCompletion {
    pub id: u64,
    pub selection: Option<String>,
}

/// Handles a key while a selector is open. Escape closes it without a
/// choice; Enter closes it with the selected item, when the selection lies
/// among the matches; the arrows, page keys, Home and End move the
/// selection; Backspace and typed text (without Control or Super) edit
/// the query. `text` is what the key typed, where it differs from the key.
pub fn handle_selector_key(
    selector: &mut Option<SelectorOverlay>,
    key: &Key,
    text: Option<&str>,
    modifiers: ModifiersState,
) -> (r: Option<SelectorCompletion>)
    ensures
        match *old(selector) {
            None => r is None && *final(selector) == None::<SelectorOverlay>,
            Some(s) => match *key {
                Key::Named(NamedKey::Escape) => r == Some(SelectorCompletion { id: s.id, selection: None })
                    && *final(selector) == None::<SelectorOverlay>,
                Key::Named(NamedKey::Enter) => if s.spec_selected() < s.spec_filtered().len() {
                    r == Some(
                        SelectorCompletion {
                            id: s.id,
                            selection: Some(s.items@[s.spec_filtered()[s.spec_selected() as int] as int]),
                        },
                    ) && *final(selector) == None::<SelectorOverlay>
                } else {
                    r is None && *final(selector) == Some(s)
                },
                Key::Named(NamedKey::ArrowUp) => r is None && *final(selector) == Some(
                    with_selection(s, previous_selection(s)),
                ),
                Key::Named(NamedKey::ArrowDown) => r is None && *final(selector) == Some(
                    with_selection(s, next_selection(s)),
                ),
                Key::Named(NamedKey::PageUp) => r is None && *final(selector) == Some(
                    with_selection(s, page_previous_selection(s)),
                ),
                Key::Named(NamedKey::PageDown) => r is None && *final(selector) == Some(
                    with_selection(s, page_next_selection(s)),
                ),
                Key::Named(NamedKey::Home) => r is None && *final(selector) == Some(with_selection(s, 0)),
                Key::Named(NamedKey::End) => r is None && *final(selector) == Some(
                    with_selection(s, last_selection(s)),
                ),
                Key::Named(NamedKey::Backspace) => r is None && (*final(selector) matches Some(t)
                    && with_query(
                    s,
                    if s.query@.len() == 0 {
                        s.query@
                    } else {
                        s.query@.drop_last()
                    },
                    t,
                )),
                Key::Character(typed) => if !modifiers.spec_control() && !modifiers.spec_super() {
                    r is None && (*final(selector) matches Some(t) && with_query(
                        s,
                        s.query@ + match text {
                            Some(x) => x@,
                            None => typed@,
                        },
                        t,
                    ))
                } else {
                    r is None && *final(selector) == Some(s)
                },
                _ => r is None && *final(selector) == Some(s),
            },
        },
{
    let mut current = match selector.take() {
        None => {
            return None;
        },
        Some(s) => s,
    };
    let ghost s = current;
    match key {
        Key::Named(NamedKey::Escape) => {
            return Some(SelectorCompletion { id: current.id, selection: None });
        },
        Key::Named(NamedKey::Enter) => {
            match current.selected_item() {
                Some(item) => {
                    return Some(SelectorCompletion { id: current.id, selection: Some(item) });
                },
                None => {},
            }
        },
        Key::Named(NamedKey::ArrowUp) => current.move_previous(),
        Key::Named(NamedKey::ArrowDown) => current.move_next(),
        Key::Named(NamedKey::PageUp) => current.page_previous(),
        Key::Named(NamedKey::PageDown) => current.page_next(),
        Key::Named(NamedKey::Home) => current.move_first(),
        Key::Named(NamedKey::End) => current.move_last(),
        Key::Named(NamedKey::Backspace) => current.pop_query(),
        Key::Character(typed) => {
            if !modifiers.control_key() && !modifiers.super_key() {
                let input = match text {
                    Some(x) => x,
                    None => typed.as_str(),
                };
                current.append_query(input);
            }
        },
        _ => {},
    }
    *selector = Some(current);
    None
}

} // verus!
