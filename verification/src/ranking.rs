//! Sorting by a total order that the element type brings with it.

use vstd::prelude::*;
use vstd::relations::{sorted_by, total_ordering};
use vstd::seq_lib::{
    lemma_multiset_commutative, lemma_sorted_unique, to_multiset_build, to_multiset_contains,
};

verus! {

/// A type whose values stand in a total order.
pub trait Ranked: Copy {
    /// Whether `self` stands at or before `other`.
    spec fn precedes(self, other: Self) -> bool;

    /// `precedes` is reflexive, antisymmetric, transitive and total.
    proof fn lemma_total_order()
        ensures
            forall|a: Self| #[trigger] a.precedes(a),
            forall|a: Self, b: Self| #[trigger] a.precedes(b) && #[trigger] b.precedes(a) ==> a == b,
            forall|a: Self, b: Self, c: Self|
                #[trigger] a.precedes(b) && #[trigger] b.precedes(c) ==> a.precedes(c),
            forall|a: Self, b: Self| #[trigger] a.precedes(b) || #[trigger] b.precedes(a),
    ;

    /// Decides `precedes`.
    fn stands_before(&self, other: &Self) -> (before: bool)
        ensures
            before == self.precedes(*other),
    ;
}

/// The order of `T` as a relation.
pub open spec fn ranking<T: Ranked>() -> spec_fn(T, T) -> bool {
    |a: T, b: T| a.precedes(b)
}

impl Ranked for i32 {
    open spec fn precedes(self, other: Self) -> bool {
        self <= other
    }

    proof fn lemma_total_order() {
    }

    fn stands_before(&self, other: &Self) -> (before: bool) {
        *self <= *other
    }
}

/// The order of `T` is a total order in the sense of `vstd::relations`.
pub proof fn lemma_ranking_is_total<T: Ranked>()
    ensures
        total_ordering(ranking::<T>()),
{
    T::lemma_total_order();
    let order = ranking::<T>();
    assert forall|a: T, b: T, c: T| #[trigger] order(a, b) && #[trigger] order(b, c) implies order(
        a,
        c,
    ) by {
        assert(a.precedes(b) && b.precedes(c));
    }
    assert forall|a: T, b: T| #[trigger] order(a, b) && #[trigger] order(b, a) implies a == b by {
        assert(a.precedes(b) && b.precedes(a));
    }
    assert forall|a: T, b: T| #[trigger] order(a, b) || #[trigger] order(b, a) by {
        assert(a.precedes(b) || b.precedes(a));
    }
    assert forall|a: T| #[trigger] order(a, a) by {
        assert(a.precedes(a));
    }
}

/// Merges two sorted lists into one sorted list of all their items.
fn merge<T: Ranked>(left: &Vec<T>, right: &Vec<T>) -> (merged: Vec<T>)
    requires
        sorted_by(left@, ranking::<T>()),
        sorted_by(right@, ranking::<T>()),
    ensures
        sorted_by(merged@, ranking::<T>()),
        merged@.to_multiset() == left@.to_multiset().add(right@.to_multiset()),
        merged@.len() == left@.len() + right@.len(),
{
    proof {
        lemma_ranking_is_total::<T>();
    }
    let mut merged: Vec<T> = Vec::new();
    let mut taken: usize = 0;
    let mut used: usize = 0;
    proof {
        assert(left@.take(0) == merged@ && right@.take(0) == merged@);
        assert forall|item: T| merged@.to_multiset().count(item) == 0 by {
            to_multiset_contains(merged@, item);
        }
        assert(merged@.to_multiset() =~= merged@.to_multiset().add(merged@.to_multiset()));
    }
    while taken < left.len() || used < right.len()
        invariant
            taken <= left.len(),
            used <= right.len(),
            merged@.len() == taken + used,
            total_ordering(ranking::<T>()),
            sorted_by(left@, ranking::<T>()),
            sorted_by(right@, ranking::<T>()),
            sorted_by(merged@, ranking::<T>()),
            merged@.to_multiset() == left@.take(taken as int).to_multiset().add(
                right@.take(used as int).to_multiset(),
            ),
            forall|k: int|
                0 <= k < merged@.len() && taken < left.len() ==> #[trigger] ranking::<T>()(
                    merged@[k],
                    left@[taken as int],
                ),
            forall|k: int|
                0 <= k < merged@.len() && used < right.len() ==> #[trigger] ranking::<T>()(
                    merged@[k],
                    right@[used as int],
                ),
        decreases left.len() - taken + right.len() - used,
    {
        let ghost before = merged@;
        if used >= right.len() || (taken < left.len() && left[taken].stands_before(&right[used])) {
            let item = left[taken];
            merged.push(item);
            proof {
                assert(left@.take(taken + 1) == left@.take(taken as int).push(item));
                to_multiset_build(left@.take(taken as int), item);
                to_multiset_build(before, item);
                assert(merged@.to_multiset() =~= left@.take(taken + 1).to_multiset().add(
                    right@.take(used as int).to_multiset(),
                ));
                assert forall|k: int|
                    0 <= k < merged@.len() && taken + 1 < left.len() implies #[trigger] ranking::<
                    T,
                >()(merged@[k], left@[taken + 1]) by {
                    assert(ranking::<T>()(item, left@[taken + 1]));
                    if k < before.len() {
                        assert(ranking::<T>()(before[k], item));
                    }
                }
            }
            taken = taken + 1;
        } else {
            let item = right[used];
            merged.push(item);
            proof {
                assert(right@.take(used + 1) == right@.take(used as int).push(item));
                to_multiset_build(right@.take(used as int), item);
                to_multiset_build(before, item);
                assert(merged@.to_multiset() =~= left@.take(taken as int).to_multiset().add(
                    right@.take(used + 1).to_multiset(),
                ));
                if taken < left.len() {
                    assert(ranking::<T>()(left@[taken as int], item) || ranking::<T>()(
                        item,
                        left@[taken as int],
                    ));
                }
                assert forall|k: int|
                    0 <= k < merged@.len() && used + 1 < right.len() implies #[trigger] ranking::<
                    T,
                >()(merged@[k], right@[used + 1]) by {
                    assert(ranking::<T>()(item, right@[used + 1]));
                    if k < before.len() {
                        assert(ranking::<T>()(before[k], item));
                    }
                }
            }
            used = used + 1;
        }
    }
    proof {
        assert(left@.take(taken as int) == left@);
        assert(right@.take(used as int) == right@);
    }
    merged
}

/// Sorts the items of `items` from `from` up to, but not including, `to`.
fn sort_range<T: Ranked>(items: &Vec<T>, from: usize, to: usize) -> (sorted: Vec<T>)
    requires
        from <= to <= items.len(),
    ensures
        sorted_by(sorted@, ranking::<T>()),
        sorted@.to_multiset() == items@.subrange(from as int, to as int).to_multiset(),
        sorted@.len() == to - from,
    decreases to - from,
{
    if to - from <= 1 {
        let mut sorted: Vec<T> = Vec::new();
        if from < to {
            sorted.push(items[from]);
        }
        assert(sorted@ == items@.subrange(from as int, to as int));
        sorted
    } else {
        let middle = from + (to - from) / 2;
        let left = sort_range(items, from, middle);
        let right = sort_range(items, middle, to);
        proof {
            let lower = items@.subrange(from as int, middle as int);
            let upper = items@.subrange(middle as int, to as int);
            assert(items@.subrange(from as int, to as int) == lower + upper);
            lemma_multiset_commutative(lower, upper);
        }
        merge(&left, &right)
    }
}

/// Sorts `items` by the order of `T`.
pub fn sort<T: Ranked>(items: &Vec<T>) -> (sorted: Vec<T>)
    ensures
        sorted@ == items@.sort_by(ranking::<T>()),
        sorted@.len() == items@.len(),
        sorted@.to_multiset() == items@.to_multiset(),
{
    let sorted = sort_range(items, 0, items.len());
    proof {
        assert(items@.subrange(0, items.len() as int) == items@);
        lemma_ranking_is_total::<T>();
        items@.lemma_sort_by_ensures(ranking::<T>());
        lemma_sorted_unique(sorted@, items@.sort_by(ranking::<T>()), ranking::<T>());
    }
    sorted
}

} // verus!
