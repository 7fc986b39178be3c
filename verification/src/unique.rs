//! Sequences that hold nothing twice: the form in which sets of listeners and
//! of processes are handed out.
//!
//! A result is a `Vec` whose items differ from one another. What counts is an
//! item's view; the order is that of the first occurrences.

use vstd::prelude::*;
use crate::model::{Listener, Process};

verus! {

/// The views of the items of a sequence, in order.
pub open spec fn spec_views<T: View>(s: Seq<T>) -> Seq<T::V> {
    s.map_values(|x: T| x@)
}

/// `s` without the items that have occurred before: of several equal items
/// the first one stays.
pub open spec fn spec_dedup<A>(s: Seq<A>) -> Seq<A>
    decreases s.len(),
{
    if s.len() == 0 {
        Seq::empty()
    } else {
        let before = spec_dedup(s.drop_last());
        if before.contains(s.last()) {
            before
        } else {
            before.push(s.last())
        }
    }
}

/// What a result holds is what went in: `spec_dedup` neither adds an item nor
/// loses one.
pub proof fn lemma_dedup_contains<A>(s: Seq<A>, x: A)
    ensures
        spec_dedup(s).contains(x) <==> s.contains(x),
    decreases s.len(),
{
    if s.len() > 0 {
        let front = s.drop_last();
        let before = spec_dedup(front);
        lemma_dedup_contains(front, x);
        lemma_dedup_contains(front, s.last());
        if s.contains(x) {
            let i = choose|i: int| 0 <= i < s.len() && s[i] == x;
            if i < s.len() - 1 {
                assert(front[i] == x);
            }
        }
        if front.contains(x) {
            let i = choose|i: int| 0 <= i < front.len() && front[i] == x;
            assert(s[i] == x);
        }
        assert(s[s.len() - 1] == s.last());
        if !before.contains(s.last()) {
            let after = before.push(s.last());
            assert(after[before.len() as int] == s.last());
            if before.contains(x) {
                let i = choose|i: int| 0 <= i < before.len() && before[i] == x;
                assert(after[i] == x);
            }
        }
    }
}

/// No item occurs twice in a result.
pub proof fn lemma_dedup_no_duplicates<A>(s: Seq<A>)
    ensures
        spec_dedup(s).no_duplicates(),
    decreases s.len(),
{
    if s.len() > 0 {
        lemma_dedup_no_duplicates(s.drop_last());
    }
}

/// A sequence that holds nothing twice is left as it is.
pub proof fn lemma_dedup_of_unique<A>(s: Seq<A>)
    requires
        s.no_duplicates(),
    ensures
        spec_dedup(s) == s,
    decreases s.len(),
{
    if s.len() > 0 {
        let front = s.drop_last();
        lemma_dedup_of_unique(front);
        lemma_dedup_contains(front, s.last());
        if front.contains(s.last()) {
            let i = choose|i: int| 0 <= i < front.len() && front[i] == s.last();
            assert(s[i] == s[s.len() - 1]);
        }
        assert(front.push(s.last()) =~= s);
    } else {
        assert(s =~= Seq::empty());
    }
}

/// An item of a result: it can be compared with another by its view, and
/// copied.
pub trait Item: View + Sized {
    /// Whether two items have the same view.
    fn same(&self, other: &Self) -> (r: bool)
        ensures
            r == (self@ == other@),
    ;

    /// A copy of the item.
    fn duplicate(&self) -> (r: Self)
        ensures
            r@ == self@,
    ;
}

impl Item for Process {
    fn same(&self, other: &Self) -> (r: bool) {
        self.pid == other.pid && self.name == other.name
    }

    fn duplicate(&self) -> (r: Self) {
        self.clone()
    }
}

impl Item for Listener {
    fn same(&self, other: &Self) -> (r: bool) {
        self.process.same(&other.process) && self.socket == other.socket && self.protocol
            == other.protocol
    }

    fn duplicate(&self) -> (r: Self) {
        self.clone()
    }
}

/// Whether `items` holds an item with the view of `x`.
pub fn holds<T: Item>(items: &Vec<T>, x: &T) -> (r: bool)
    ensures
        r == spec_views(items@).contains(x@),
{
    let mut i: usize = 0;
    while i < items.len()
        invariant
            i <= items.len(),
            forall|j: int| 0 <= j < i ==> spec_views(items@)[j] != x@,
        decreases items.len() - i,
    {
        if items[i].same(x) {
            assert(spec_views(items@)[i as int] == x@);
            return true;
        }
        i = i + 1;
    }
    false
}

/// Adds `x` to `items` unless an item with its view is there already.
pub fn push_unique<T: Item>(items: &mut Vec<T>, x: T)
    ensures
        spec_views(final(items)@) == (if spec_views(old(items)@).contains(x@) {
            spec_views(old(items)@)
        } else {
            spec_views(old(items)@).push(x@)
        }),
{
    if !holds(items, &x) {
        items.push(x);
        assert(spec_views(items@) =~= spec_views(old(items)@).push(x@));
    }
}

/// The items of `items` without those that have occurred before.
pub fn dedup<T: Item>(items: &Vec<T>) -> (r: Vec<T>)
    ensures
        spec_views(r@) == spec_dedup(spec_views(items@)),
        spec_views(r@).no_duplicates(),
{
    let mut out: Vec<T> = Vec::new();
    let mut i: usize = 0;
    assert(spec_views(items@).take(0) =~= Seq::empty());
    assert(spec_views(out@) =~= Seq::empty());
    while i < items.len()
        invariant
            i <= items.len(),
            spec_views(out@) == spec_dedup(spec_views(items@).take(i as int)),
        decreases items.len() - i,
    {
        proof {
            let next = spec_views(items@).take(i + 1);
            assert(next.drop_last() =~= spec_views(items@).take(i as int));
            assert(next.last() == items@[i as int]@);
        }
        push_unique(&mut out, items[i].duplicate());
        i = i + 1;
    }
    proof {
        assert(spec_views(items@).take(items@.len() as int) =~= spec_views(items@));
        lemma_dedup_no_duplicates(spec_views(items@));
    }
    out
}

} // verus!
