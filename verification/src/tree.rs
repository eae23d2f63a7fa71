//! The binary split tree that lays out the panes of one tab.
use vstd::prelude::*;

use crate::api::{PaneId, SplitDirection};

verus! {

/// The layout tree of a tab: either a single pane or a split of two subtrees.
/// Splits are created even (`ratio_percent` is 50).
#[derive(Debug, PartialEq, Eq)]
pub enum PaneNode {
    Leaf(PaneId),
    Split {
        direction: SplitDirection,
        ratio_percent: u8,
        first: Box<PaneNode>,
        second: Box<PaneNode>,
    },
}

/// Whether a split in `direction` places the new pane before the existing one.
pub open spec fn new_pane_goes_first(direction: SplitDirection) -> bool {
    direction == SplitDirection::Left || direction == SplitDirection::Up
}

/// The panes that one pane of a tree turns into when `target` is split.
pub open spec fn split_image(
    pane: PaneId,
    target: PaneId,
    new_pane: PaneId,
    new_first: bool,
) -> Seq<PaneId> {
    if pane == target {
        if new_first {
            seq![new_pane, target]
        } else {
            seq![target, new_pane]
        }
    } else {
        seq![pane]
    }
}

/// The pane order after `target` has been split and `new_pane` placed beside it.
pub open spec fn panes_after_split(
    panes: Seq<PaneId>,
    target: PaneId,
    new_pane: PaneId,
    new_first: bool,
) -> Seq<PaneId> {
    panes.flat_map(|p: PaneId| split_image(p, target, new_pane, new_first))
}

/// The pane order after `target` has been removed.
pub open spec fn panes_without(panes: Seq<PaneId>, target: PaneId) -> Seq<PaneId> {
    panes.filter(other_than(target))
}

/// The predicate that holds of every pane but `target`.
pub open spec fn other_than(target: PaneId) -> spec_fn(PaneId) -> bool {
    |p: PaneId| p != target
}

/// Flat-mapping a concatenation is the concatenation of the flat maps.
pub proof fn lemma_flat_map_add<A, B>(a: Seq<A>, b: Seq<A>, f: spec_fn(A) -> Seq<B>)
    ensures
        (a + b).flat_map(f) == a.flat_map(f) + b.flat_map(f),
    decreases a.len(),
{
    if a.len() == 0 {
        assert(a + b =~= b);
        assert(a.map_values(f) =~= Seq::<Seq<B>>::empty());
        assert(a.flat_map(f) =~= Seq::<B>::empty());
        assert(a.flat_map(f) + b.flat_map(f) =~= b.flat_map(f));
    } else {
        lemma_flat_map_add(a.drop_first(), b, f);
        let ab = a + b;
        assert(ab.map_values(f).drop_first() =~= (a.drop_first() + b).map_values(f));
        assert(a.map_values(f).drop_first() =~= a.drop_first().map_values(f));
        assert(ab.map_values(f).first() == f(a[0]));
        assert(a.map_values(f).first() == f(a[0]));
        assert(ab.flat_map(f) == f(a[0]) + (a.drop_first() + b).flat_map(f));
        assert(a.flat_map(f) == f(a[0]) + a.drop_first().flat_map(f));
        assert(ab.flat_map(f) =~= a.flat_map(f) + b.flat_map(f));
    }
}

/// Splitting a pane that does not occur leaves the order unchanged.
pub proof fn lemma_split_absent(
    panes: Seq<PaneId>,
    target: PaneId,
    new_pane: PaneId,
    new_first: bool,
)
    requires
        !panes.contains(target),
    ensures
        panes_after_split(panes, target, new_pane, new_first) == panes,
    decreases panes.len(),
{
    let f = |p: PaneId| split_image(p, target, new_pane, new_first);
    if panes.len() == 0 {
        assert(panes.map_values(f) =~= Seq::<Seq<PaneId>>::empty());
        assert(panes.flat_map(f) =~= panes);
    } else {
        let rest = panes.drop_first();
        assert(!rest.contains(target)) by {
            if rest.contains(target) {
                let i = choose|i: int| 0 <= i < rest.len() && rest[i] == target;
                assert(panes[i + 1] == target);
            }
        }
        lemma_split_absent(rest, target, new_pane, new_first);
        assert(panes.map_values(f).drop_first() =~= rest.map_values(f));
        assert(panes[0] != target) by {
            assert(panes.contains(panes[0]) ==> panes[0] != target);
        }
        assert(panes.flat_map(f) == f(panes[0]) + rest.flat_map(f));
        assert(panes.flat_map(f) =~= panes);
    }
}

/// Removing a pane that does not occur leaves the order unchanged.
pub proof fn lemma_without_absent(panes: Seq<PaneId>, target: PaneId)
    requires
        !panes.contains(target),
    ensures
        panes_without(panes, target) == panes,
{
    assert forall|i: int| 0 <= i < panes.len() implies other_than(target)(#[trigger] panes[i]) by {
        assert(panes.contains(panes[i]));
    }
    lemma_filter_all_true(panes, other_than(target));
}

/// Filtering with a predicate that holds everywhere is the identity.
pub proof fn lemma_filter_all_true<A>(s: Seq<A>, f: spec_fn(A) -> bool)
    requires
        forall|i: int| 0 <= i < s.len() ==> f(#[trigger] s[i]),
    ensures
        s.filter(f) == s,
    decreases s.len(),
{
    reveal_with_fuel(Seq::filter, 2);
    if s.len() == 0 {
        assert(s.filter(f) =~= s);
    } else {
        let init = s.drop_last();
        assert forall|i: int| 0 <= i < init.len() implies f(#[trigger] init[i]) by {
            assert(init[i] == s[i]);
        }
        lemma_filter_all_true(init, f);
        assert(s.filter(f) =~= s);
    }
}

/// Both halves of a duplicate-free concatenation are duplicate-free.
pub proof fn lemma_no_duplicates_parts<A>(a: Seq<A>, b: Seq<A>)
    requires
        (a + b).no_duplicates(),
    ensures
        a.no_duplicates(),
        b.no_duplicates(),
{
    assert forall|i: int, j: int| 0 <= i < a.len() && 0 <= j < a.len() && i != j implies a[i]
        != a[j] by {
        assert((a + b)[i] == a[i] && (a + b)[j] == a[j]);
    }
    assert forall|i: int, j: int| 0 <= i < b.len() && 0 <= j < b.len() && i != j implies b[i]
        != b[j] by {
        assert((a + b)[a.len() + i] == b[i] && (a + b)[a.len() + j] == b[j]);
    }
}

/// In a duplicate-free concatenation an element of the left half is absent
/// from the right half.
pub proof fn lemma_disjoint_absent<A>(a: Seq<A>, b: Seq<A>, x: A)
    requires
        (a + b).no_duplicates(),
        a.contains(x),
    ensures
        !b.contains(x),
{
    if b.contains(x) {
        let i = choose|i: int| 0 <= i < a.len() && a[i] == x;
        let j = choose|j: int| 0 <= j < b.len() && b[j] == x;
        assert((a + b)[i] == (a + b)[a.len() + j]);
    }
}

/// An element of the left half occurs in the concatenation.
pub proof fn lemma_contains_left<A>(a: Seq<A>, b: Seq<A>, x: A)
    requires
        a.contains(x),
    ensures
        (a + b).contains(x),
{
    let i = choose|i: int| 0 <= i < a.len() && a[i] == x;
    assert((a + b)[i] == x);
}

/// Membership in a concatenation is membership in one of its halves.
pub proof fn lemma_contains_parts<A>(a: Seq<A>, b: Seq<A>, x: A)
    ensures
        (a + b).contains(x) <==> (a.contains(x) || b.contains(x)),
{
    if a.contains(x) {
        lemma_contains_left(a, b, x);
    }
    if b.contains(x) {
        let j = choose|j: int| 0 <= j < b.len() && b[j] == x;
        assert((a + b)[a.len() + j] == x);
    }
    if (a + b).contains(x) {
        let i = choose|i: int| 0 <= i < (a + b).len() && (a + b)[i] == x;
        if i < a.len() {
            assert(a[i] == x);
        } else {
            assert(b[i - a.len()] == x);
        }
    }
}

/// What splitting does to membership and uniqueness of a pane order.
pub proof fn lemma_split_panes(s: Seq<PaneId>, target: PaneId, new_pane: PaneId, new_first: bool)
    ensures
        forall|x: PaneId|
            #[trigger] panes_after_split(s, target, new_pane, new_first).contains(x) <==> (
            s.contains(x) || (x == new_pane && s.contains(target))),
        s.no_duplicates() && !s.contains(new_pane) ==> panes_after_split(
            s,
            target,
            new_pane,
            new_first,
        ).no_duplicates(),
    decreases s.len(),
{
    let f = |p: PaneId| split_image(p, target, new_pane, new_first);
    let r = panes_after_split(s, target, new_pane, new_first);
    if s.len() == 0 {
        assert(s.map_values(f) =~= Seq::<Seq<PaneId>>::empty());
        assert(r =~= Seq::<PaneId>::empty());
    } else {
        let rest = s.drop_first();
        lemma_split_panes(rest, target, new_pane, new_first);
        assert(s =~= seq![s[0]] + rest);
        assert(s.map_values(f).drop_first() =~= rest.map_values(f));
        assert(r == f(s[0]) + panes_after_split(rest, target, new_pane, new_first));
        let head = f(s[0]);
        let tail = panes_after_split(rest, target, new_pane, new_first);
        assert forall|x: PaneId| #[trigger] r.contains(x) <==> (s.contains(x) || (x == new_pane
            && s.contains(target))) by {
            lemma_contains_parts(head, tail, x);
            lemma_contains_parts(seq![s[0]], rest, x);
            lemma_contains_parts(seq![s[0]], rest, target);
            if s[0] == target {
                if new_first {
                    assert(head[0] == new_pane && head[1] == target);
                } else {
                    assert(head[0] == target && head[1] == new_pane);
                }
                assert(head.contains(x) <==> (x == target || x == new_pane));
            } else {
                assert(head[0] == s[0]);
                assert(head.contains(x) <==> x == s[0]);
            }
            assert(seq![s[0]].contains(x) <==> x == s[0]) by {
                assert(seq![s[0]][0] == s[0]);
            }
            assert(seq![s[0]].contains(target) <==> target == s[0]) by {
                assert(seq![s[0]][0] == s[0]);
            }
        }
        if s.no_duplicates() && !s.contains(new_pane) {
            lemma_no_duplicates_parts(seq![s[0]], rest);
            assert(!rest.contains(new_pane)) by {
                lemma_contains_parts(seq![s[0]], rest, new_pane);
            }
            assert(!rest.contains(s[0])) by {
                lemma_disjoint_absent(seq![s[0]], rest, s[0]);
                assert(seq![s[0]][0] == s[0]);
            }
            assert(s[0] != new_pane) by {
                assert(s.contains(s[0]));
            }
            assert(head.no_duplicates());
            assert forall|i: int, j: int| 0 <= i < head.len() && 0 <= j < tail.len() implies head[i]
                != tail[j] by {
                assert(tail.contains(tail[j]));
                assert(head.contains(head[i]));
                if s[0] == target {
                    assert(!rest.contains(target));
                }
            }
            vstd::seq_lib::lemma_no_dup_in_concat(head, tail);
        }
    }
}

/// What removing a pane does to membership and uniqueness of a pane order.
pub proof fn lemma_without_panes(s: Seq<PaneId>, target: PaneId)
    ensures
        forall|x: PaneId| #[trigger]
            panes_without(s, target).contains(x) <==> (s.contains(x) && x != target),
        s.no_duplicates() ==> panes_without(s, target).no_duplicates(),
    decreases s.len(),
{
    reveal_with_fuel(Seq::filter, 2);
    let r = panes_without(s, target);
    if s.len() == 0 {
        assert(r =~= Seq::<PaneId>::empty());
    } else {
        let init = s.drop_last();
        lemma_without_panes(init, target);
        let ri = panes_without(init, target);
        let last = s.last();
        assert(s =~= init.push(last));
        if last != target {
            assert(r == ri.push(last));
        } else {
            assert(r == ri);
        }
        assert forall|x: PaneId| #[trigger] r.contains(x) <==> (s.contains(x) && x != target) by {
            lemma_contains_parts(init, seq![last], x);
            assert(init.push(last) =~= init + seq![last]);
            assert(seq![last].contains(x) <==> x == last) by {
                assert(seq![last][0] == last);
            }
            if last != target {
                assert(ri.push(last) =~= ri + seq![last]);
                lemma_contains_parts(ri, seq![last], x);
            }
        }
        if s.no_duplicates() {
            assert(init.no_duplicates());
            if last != target {
                assert(!init.contains(last)) by {
                    if init.contains(last) {
                        let i = choose|i: int| 0 <= i < init.len() && init[i] == last;
                        assert(s[i] == s[s.len() - 1]);
                    }
                }
                assert(!ri.contains(last));
                assert(ri.push(last) =~= ri + seq![last]);
                vstd::seq_lib::lemma_no_dup_in_concat(ri, seq![last]);
            }
        }
    }
}

impl PaneNode {
    /// The panes of the tree, left to right.
    pub open spec fn spec_panes(self) -> Seq<PaneId>
        decreases self,
    {
        match self {
            PaneNode::Leaf(pane) => seq![pane],
            PaneNode::Split { first, second, .. } => first.spec_panes() + second.spec_panes(),
        }
    }

    pub open spec fn is_leaf(self) -> bool {
        self is Leaf
    }

    /// Every tree holds at least one pane; a split holds at least two.
    pub proof fn lemma_panes_nonempty(self)
        ensures
            self.spec_panes().len() >= 1,
            !self.is_leaf() ==> self.spec_panes().len() >= 2,
        decreases self,
    {
        match self {
            PaneNode::Leaf(_) => {},
            PaneNode::Split { first, second, .. } => {
                first.lemma_panes_nonempty();
                second.lemma_panes_nonempty();
            },
        }
    }

    /// Returns the panes of the tree, left to right.
    pub fn panes(&self) -> (r: Vec<PaneId>)
        ensures
            r@ == self.spec_panes(),
    {
        let mut panes = Vec::new();
        self.collect_panes(&mut panes);
        assert(panes@ =~= self.spec_panes());
        panes
    }

    fn collect_panes(&self, panes: &mut Vec<PaneId>)
        ensures
            final(panes)@ == old(panes)@ + self.spec_panes(),
        decreases self,
    {
        match self {
            PaneNode::Leaf(pane) => {
                panes.push(*pane);
                assert(final(panes)@ =~= old(panes)@ + self.spec_panes());
            },
            PaneNode::Split { first, second, .. } => {
                first.collect_panes(panes);
                second.collect_panes(panes);
                assert(panes@ =~= old(panes)@ + self.spec_panes());
            },
        }
    }

    /// Whether the tree is a single pane.
    pub fn is_single(&self) -> (r: bool)
        ensures
            r == self.is_leaf(),
    {
        match self {
            PaneNode::Leaf(_) => true,
            PaneNode::Split { .. } => false,
        }
    }

    /// Returns the leftmost pane of the tree.
    pub fn first_pane(&self) -> (r: PaneId)
        ensures
            r == self.spec_panes()[0],
        decreases self,
    {
        match self {
            PaneNode::Leaf(pane) => *pane,
            PaneNode::Split { first, .. } => {
                proof {
                    first.lemma_panes_nonempty();
                }
                first.first_pane()
            },
        }
    }

    /// Removes the leaf `target`, collapsing the split that held it into the
    /// sibling subtree. Returns the remaining tree (none when the tree was just
    /// `target`) and whether `target` was found.
    pub fn remove(self, target: PaneId) -> (r: (Option<PaneNode>, bool))
        requires
            self.spec_panes().no_duplicates(),
        ensures
            r.1 == self.spec_panes().contains(target),
            r.0 is None <==> self.spec_panes() == seq![target],
            r.0 matches Some(n) ==> n.spec_panes() == panes_without(self.spec_panes(), target),
            !r.1 ==> r.0 == Some(self),
        decreases self,
    {
        broadcast use vstd::seq_lib::group_filter_ensures;

        let ghost whole = self.spec_panes();
        proof {
            self.lemma_panes_nonempty();
        }
        match self {
            PaneNode::Leaf(pane) => {
                proof {
                    reveal_with_fuel(Seq::filter, 2);
                    assert(whole =~= seq![pane]);
                }
                if pane == target {
                    proof {
                        assert(whole[0] == target);
                    }
                    (None, true)
                } else {
                    proof {
                        assert(!whole.contains(target));
                        lemma_without_absent(whole, target);
                    }
                    (Some(PaneNode::Leaf(pane)), false)
                }
            },
            PaneNode::Split { direction, ratio_percent, first, second } => {
                let ghost a = first.spec_panes();
                let ghost b = second.spec_panes();
                proof {
                    first.lemma_panes_nonempty();
                    second.lemma_panes_nonempty();
                    assert(whole == a + b);
                    lemma_no_duplicates_parts(a, b);
                    Seq::filter_distributes_over_add(a, b, other_than(target));
                    assert(whole != seq![target]) by {
                        assert(whole.len() >= 2);
                    }
                }
                let (first_rest, removed) = (*first).remove(target);
                if removed {
                    proof {
                        lemma_disjoint_absent(a, b, target);
                        lemma_without_absent(b, target);
                        lemma_contains_left(a, b, target);
                    }
                    match first_rest {
                        Some(rest) => {
                            let node = PaneNode::Split {
                                direction,
                                ratio_percent,
                                first: Box::new(rest),
                                second,
                            };
                            (Some(node), true)
                        },
                        None => {
                            proof {
                                reveal_with_fuel(Seq::filter, 2);
                                assert(panes_without(a, target) =~= Seq::<PaneId>::empty());
                                assert(panes_without(whole, target) =~= b);
                            }
                            (Some(*second), true)
                        },
                    }
                } else {
                    proof {
                        lemma_without_absent(a, target);
                    }
                    let kept_first = match first_rest {
                        Some(node) => node,
                        None => {
                            proof {
                                assert(false);
                            }
                            PaneNode::Leaf(target)
                        },
                    };
                    let (second_rest, removed_second) = (*second).remove(target);
                    proof {
                        lemma_contains_parts(a, b, target);
                    }
                    match second_rest {
                        Some(rest) => {
                            let node = PaneNode::Split {
                                direction,
                                ratio_percent,
                                first: Box::new(kept_first),
                                second: Box::new(rest),
                            };
                            (Some(node), removed_second)
                        },
                        None => {
                            proof {
                                reveal_with_fuel(Seq::filter, 2);
                                assert(panes_without(b, target) =~= Seq::<PaneId>::empty());
                                assert(panes_without(whole, target) =~= a);
                            }
                            (Some(kept_first), true)
                        },
                    }
                }
            },
        }
    }

    /// Replaces the leaf `target` by an even split of `target` and `new_pane`.
    /// Returns whether `target` was found.
    pub fn split(&mut self, target: PaneId, new_pane: PaneId, direction: SplitDirection) -> (r:
        bool)
        requires
            old(self).spec_panes().no_duplicates(),
        ensures
            r == old(self).spec_panes().contains(target),
            final(self).spec_panes() == panes_after_split(
                old(self).spec_panes(),
                target,
                new_pane,
                new_pane_goes_first(direction),
            ),
        decreases *old(self),
    {
        let ghost new_first = new_pane_goes_first(direction);
        let ghost f = |p: PaneId| split_image(p, target, new_pane, new_first);
        let is_target = match self {
            PaneNode::Leaf(pane) => *pane == target,
            PaneNode::Split { .. } => false,
        };
        if is_target {
            let new_first_exec = match direction {
                SplitDirection::Left | SplitDirection::Up => true,
                SplitDirection::Right | SplitDirection::Down => false,
            };
            let existing = PaneNode::Leaf(target);
            let created = PaneNode::Leaf(new_pane);
            let (first, second) = if new_first_exec {
                (created, existing)
            } else {
                (existing, created)
            };
            *self = PaneNode::Split {
                direction,
                ratio_percent: 50,
                first: Box::new(first),
                second: Box::new(second),
            };
            proof {
                reveal_with_fuel(PaneNode::spec_panes, 2);
                let s = old(self).spec_panes();
                assert(s =~= seq![target]);
                assert(s.map_values(f) =~= seq![f(target)]);
                s.lemma_flat_map_singleton(f);
                assert(self.spec_panes() =~= f(target));
            }
            return true;
        }
        match self {
            PaneNode::Leaf(pane) => {
                proof {
                    let s = old(self).spec_panes();
                    assert(!s.contains(target)) by {
                        assert(s =~= seq![*pane]);
                    }
                    lemma_split_absent(s, target, new_pane, new_first);
                }
                false
            },
            PaneNode::Split { first, second, .. } => {
                let ghost a = first.spec_panes();
                let ghost b = second.spec_panes();
                proof {
                    assert(old(self).spec_panes() == a + b);
                    assert(a.no_duplicates()) by {
                        assert forall|i: int, j: int|
                            0 <= i < a.len() && 0 <= j < a.len() && i != j implies a[i]
                            != a[j] by {
                            assert((a + b)[i] == a[i] && (a + b)[j] == a[j]);
                        }
                    }
                    assert(b.no_duplicates()) by {
                        assert forall|i: int, j: int|
                            0 <= i < b.len() && 0 <= j < b.len() && i != j implies b[i]
                            != b[j] by {
                            assert((a + b)[a.len() + i] == b[i] && (a + b)[a.len() + j] == b[j]);
                        }
                    }
                    lemma_flat_map_add(a, b, f);
                }
                let found = first.split(target, new_pane, direction);
                if found {
                    proof {
                        assert(!b.contains(target)) by {
                            if b.contains(target) {
                                let i = choose|i: int| 0 <= i < a.len() && a[i] == target;
                                let j = choose|j: int| 0 <= j < b.len() && b[j] == target;
                                assert((a + b)[i] == (a + b)[a.len() + j]);
                            }
                        }
                        lemma_split_absent(b, target, new_pane, new_first);
                        assert((a + b).contains(target)) by {
                            let i = choose|i: int| 0 <= i < a.len() && a[i] == target;
                            assert((a + b)[i] == target);
                        }
                    }
                    true
                } else {
                    proof {
                        lemma_split_absent(a, target, new_pane, new_first);
                    }
                    let found_second = second.split(target, new_pane, direction);
                    proof {
                        if found_second {
                            let j = choose|j: int| 0 <= j < b.len() && b[j] == target;
                            assert((a + b)[a.len() + j] == target);
                        } else {
                            assert(!(a + b).contains(target)) by {
                                if (a + b).contains(target) {
                                    let i = choose|i: int|
                                        0 <= i < (a + b).len() && (a + b)[i] == target;
                                    if i < a.len() {
                                        assert(a[i] == target);
                                    } else {
                                        assert(b[i - a.len()] == target);
                                    }
                                }
                            }
                        }
                    }
                    found_second
                }
            },
        }
    }
}

} // verus!
