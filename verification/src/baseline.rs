//! The greedy baseline of a knapsack instance: fill the knapsack in order of
//! falling value per weight, passing over whatever no longer fits.

use crate::binary64::{round_to_significand, rounded, ROUNDING_LIMIT, SCALE};
use crate::ranking::{lemma_ranking_is_total, ranking, sort, Ranked};
use vstd::prelude::*;
use vstd::seq_lib::to_multiset_len;

verus! {

/// One item of an instance, with its place in the instance.
#[derive(Debug, Clone, Copy, PartialEq, Eq, Structural)]
pub struct RatioItem {
    pub index: usize,
    pub weight: u32,
    pub value: u32,
}

impl RatioItem {
    /// The weight that the ratio is taken over: an item that weighs nothing
    /// is ranked as if it weighed one.
    pub open spec fn divisor(self) -> int {
        if self.weight == 0 {
            1
        } else {
            self.weight as int
        }
    }

    /// Positive, zero or negative as the value per weight of `self` is above,
    /// equal to or below that of `other`.
    pub open spec fn lead(self, other: RatioItem) -> int {
        self.value * other.divisor() - other.value * self.divisor()
    }
}

/// Items stand in order of falling value per weight. Items of equal ratio
/// stand in order of rising index, and items of one index, which no
/// instance has, in order of rising weight.
impl Ranked for RatioItem {
    open spec fn precedes(self, other: Self) -> bool {
        self.lead(other) > 0 || (self.lead(other) == 0 && (self.index < other.index || (self.index
            == other.index && self.weight <= other.weight)))
    }

    proof fn lemma_total_order() {
        assert forall|a: Self, b: Self| #[trigger] a.precedes(b) && #[trigger] b.precedes(a) implies a
            == b by {
            assert(a.value * a.divisor() == b.value * a.divisor() ==> a.value == b.value)
                by (nonlinear_arith)
                requires
                    a.divisor() > 0,
            ;
        }
        assert forall|a: Self, b: Self, c: Self| #[trigger]
            a.precedes(b) && #[trigger] b.precedes(c) implies a.precedes(c) by {
            lemma_lead_chains(a, b, c);
        }
    }

    fn stands_before(&self, other: &Self) -> (before: bool) {
        let own_divisor: u64 = if self.weight == 0 {
            1
        } else {
            self.weight as u64
        };
        let other_divisor: u64 = if other.weight == 0 {
            1
        } else {
            other.weight as u64
        };
        assert(self.value * other_divisor <= u64::MAX && other.value * own_divisor <= u64::MAX)
            by (nonlinear_arith)
            requires
                self.value <= u32::MAX,
                other.value <= u32::MAX,
                own_divisor <= u32::MAX,
                other_divisor <= u32::MAX,
        ;
        let own: u64 = self.value as u64 * other_divisor;
        let theirs: u64 = other.value as u64 * own_divisor;
        own > theirs || (own == theirs && (self.index < other.index || (self.index == other.index
            && self.weight <= other.weight)))
    }
}

/// Leads chain: if `a` does not trail `b` and `b` does not trail `c`, then
/// `a` does not trail `c`, and leads it if either lead is more than zero.
proof fn lemma_lead_chains(a: RatioItem, b: RatioItem, c: RatioItem)
    ensures
        a.lead(b) >= 0 && b.lead(c) >= 0 ==> a.lead(c) >= 0,
        a.lead(b) > 0 && b.lead(c) >= 0 ==> a.lead(c) > 0,
        a.lead(b) >= 0 && b.lead(c) > 0 ==> a.lead(c) > 0,
{
    if a.lead(b) >= 0 && b.lead(c) >= 0 {
        lemma_fractions_chain(
            a.value as int,
            a.divisor(),
            b.value as int,
            b.divisor(),
            c.value as int,
            c.divisor(),
        );
    }
}

/// Of three fractions with positive denominators, the first is no less than
/// the third if it is no less than the second and the second no less than
/// the third, and greater if either step is.
proof fn lemma_fractions_chain(va: int, da: int, vb: int, db: int, vc: int, dc: int)
    by (nonlinear_arith)
    requires
        da > 0,
        db > 0,
        dc > 0,
        va * db - vb * da >= 0,
        vb * dc - vc * db >= 0,
    ensures
        va * dc - vc * da >= 0,
        va * db - vb * da > 0 || vb * dc - vc * db > 0 ==> va * dc - vc * da > 0,
{
    assert(db * (va * dc - vc * da) == dc * (va * db - vb * da) + da * (vb * dc - vc * db));
}

/// The sum of `amounts`.
pub open spec fn total(amounts: Seq<u32>) -> int
    decreases amounts.len(),
{
    if amounts.len() == 0 {
        0
    } else {
        total(amounts.drop_last()) + amounts.last()
    }
}

/// The items that have both a weight and a value, in the order of the lists.
pub open spec fn items_of(weights: Seq<u32>, values: Seq<u32>) -> Seq<RatioItem> {
    Seq::new(
        if weights.len() <= values.len() {
            weights.len()
        } else {
            values.len()
        },
        |i: int| RatioItem { index: i as usize, weight: weights[i], value: values[i] },
    )
}

/// The items of an instance in the order in which the baseline tries them.
pub open spec fn greedy_order(weights: Seq<u32>, values: Seq<u32>) -> Seq<RatioItem> {
    items_of(weights, values).sort_by(ranking::<RatioItem>())
}

/// The order in which the baseline tries the items holds each item once,
/// and no item in it stands behind one that it precedes.
pub proof fn lemma_greedy_order_sorts_the_items(weights: Seq<u32>, values: Seq<u32>)
    ensures
        greedy_order(weights, values).to_multiset() == items_of(weights, values).to_multiset(),
        greedy_order(weights, values).len() == items_of(weights, values).len(),
        forall|i: int, j: int|
            0 <= i < j < greedy_order(weights, values).len() ==> (#[trigger] greedy_order(
                weights,
                values,
            )[i]).precedes(#[trigger] greedy_order(weights, values)[j]),
{
    let items = items_of(weights, values);
    let order = greedy_order(weights, values);
    lemma_ranking_is_total::<RatioItem>();
    items.lemma_sort_by_ensures(ranking::<RatioItem>());
    to_multiset_len(items);
    to_multiset_len(order);
    assert forall|i: int, j: int| 0 <= i < j < order.len() implies (#[trigger] order[i]).precedes(
        #[trigger] order[j],
    ) by {
        assert(ranking::<RatioItem>()(order[i], order[j]));
    }
}

/// The weight and the value in the knapsack once each item of `order` has
/// been tried in turn: an item goes in if it still fits under `capacity`,
/// and is passed over if it does not.
pub open spec fn filled(order: Seq<RatioItem>, capacity: int) -> (int, int)
    decreases order.len(),
{
    if order.len() == 0 {
        (0, 0)
    } else {
        let (weight, value) = filled(order.drop_last(), capacity);
        if weight + order.last().weight > capacity {
            (weight, value)
        } else {
            (weight + order.last().weight, value + order.last().value)
        }
    }
}

/// The value that the greedy baseline packs under `capacity`.
pub open spec fn baseline_value(weights: Seq<u32>, values: Seq<u32>, capacity: int) -> int {
    filled(greedy_order(weights, values), capacity).1
}

/// `SCALE` times the product of `baseline` and one plus `bonus` thousandths
/// as binary64 arithmetic computes it: the quotient, the sum and the product
/// are each rounded to 53 significant bits.
pub open spec fn binary_product(baseline: nat, bonus: nat) -> nat {
    let share = rounded((bonus * SCALE) as nat, 1000);
    let factor = rounded((SCALE + share) as nat, 1);
    rounded(baseline * factor, 1)
}

/// `baseline` raised by `bonus` thousandths and rounded to the nearest
/// integer; no more than `u32::MAX`. Where the raised baseline lies halfway
/// between two integers, it goes up if its binary64 product reaches the
/// half, and down if the product falls short of it.
pub open spec fn required_value(baseline: int, bonus: int) -> int {
    let thousandfold = baseline * (1000 + bonus);
    let below = thousandfold / 1000;
    let rest = thousandfold % 1000;
    let raised = if rest > 500 || (rest == 500 && 2 * binary_product(
        baseline as nat,
        bonus as nat,
    ) >= (2 * below + 1) * SCALE) {
        below + 1
    } else {
        below
    };
    if raised > u32::MAX {
        u32::MAX as int
    } else {
        raised
    }
}

/// The required value is an integer nearest to the raised baseline, unless
/// it is cut off at `u32::MAX`.
pub proof fn lemma_required_value_is_nearest(baseline: int, bonus: int)
    requires
        baseline >= 0,
        bonus >= 0,
    ensures
        required_value(baseline, bonus) < u32::MAX ==> -500 <= 1000 * required_value(
            baseline,
            bonus,
        ) - baseline * (1000 + bonus) <= 500,
        required_value(baseline, bonus) >= baseline || required_value(baseline, bonus) == u32::MAX,
{
    let thousandfold = baseline * (1000 + bonus);
    assert(thousandfold >= 1000 * baseline >= 0) by (nonlinear_arith)
        requires
            baseline >= 0,
            bonus >= 0,
            thousandfold == baseline * (1000 + bonus),
    ;
    vstd::arithmetic::div_mod::lemma_fundamental_div_mod(thousandfold, 1000);
}

/// A sum of numbers that are each no more than `bound` is no more than
/// `bound` times their count.
pub proof fn lemma_total_bounds(amounts: Seq<u32>, bound: int)
    requires
        forall|i: int| 0 <= i < amounts.len() ==> #[trigger] amounts[i] <= bound,
    ensures
        0 <= total(amounts) <= amounts.len() * bound,
    decreases amounts.len(),
{
    if amounts.len() > 0 {
        lemma_total_bounds(amounts.drop_last(), bound);
        assert((amounts.len() - 1) * bound + bound == amounts.len() * bound) by (nonlinear_arith);
    }
}

/// Adds up `amounts`.
pub fn sum(amounts: &Vec<u32>) -> (sum: u128)
    ensures
        sum == total(amounts@),
{
    let mut sum: u128 = 0;
    let mut done: usize = 0;
    assert(amounts@.take(0) == Seq::<u32>::empty());
    while done < amounts.len()
        invariant
            done <= amounts.len(),
            sum == total(amounts@.take(done as int)),
            sum <= done * u32::MAX,
        decreases amounts.len() - done,
    {
        assert(amounts@.take(done + 1).drop_last() == amounts@.take(done as int));
        assert((done + 1) * u32::MAX <= usize::MAX * u32::MAX) by (nonlinear_arith)
            requires
                done < usize::MAX,
        ;
        sum = sum + amounts[done] as u128;
        done = done + 1;
    }
    assert(amounts@.take(done as int) == amounts@);
    sum
}

/// Pairs each weight with its value and its place.
fn collect_items(weights: &Vec<u32>, values: &Vec<u32>) -> (items: Vec<RatioItem>)
    ensures
        items@ == items_of(weights@, values@),
{
    let count = if weights.len() <= values.len() {
        weights.len()
    } else {
        values.len()
    };
    let mut items: Vec<RatioItem> = Vec::new();
    let mut index: usize = 0;
    while index < count
        invariant
            index <= count,
            count <= weights.len(),
            count <= values.len(),
            count == items_of(weights@, values@).len(),
            items@ == items_of(weights@, values@).take(index as int),
        decreases count - index,
    {
        items.push(RatioItem { index, weight: weights[index], value: values[index] });
        index = index + 1;
    }
    items
}

/// Packs the knapsack greedily and returns the value packed: the items are
/// tried in order of falling value per weight, and one that does not fit is
/// passed over, so that a lighter one behind it can still go in.
pub fn greedy_baseline(weights: &Vec<u32>, values: &Vec<u32>, max_weight: u32) -> (baseline: u128)
    ensures
        baseline == baseline_value(weights@, values@, max_weight as int),
{
    let items = collect_items(weights, values);
    let order = sort(&items);
    let mut total_weight: u32 = 0;
    let mut total_value: u128 = 0;
    let mut tried: usize = 0;
    assert(order@.take(0) == Seq::<RatioItem>::empty());
    while tried < order.len()
        invariant
            tried <= order.len(),
            (total_weight as int, total_value as int) == filled(
                order@.take(tried as int),
                max_weight as int,
            ),
            total_weight <= max_weight,
            total_value <= tried * u32::MAX,
        decreases order.len() - tried,
    {
        assert(order@.take(tried + 1).drop_last() == order@.take(tried as int));
        assert((tried + 1) * u32::MAX <= usize::MAX * u32::MAX) by (nonlinear_arith)
            requires
                tried < usize::MAX,
        ;
        let item = order[tried];
        if item.weight <= max_weight - total_weight {
            total_weight = total_weight + item.weight;
            total_value = total_value + item.value as u128;
        }
        tried = tried + 1;
    }
    assert(order@.take(tried as int) == order@);
    total_value
}

/// Whether the binary64 product of `baseline` and one plus `bonus`
/// thousandths reaches the half above `below`.
fn product_reaches_half(baseline: u32, bonus: u32, below: u128) -> (reaches: bool)
    requires
        below <= u64::MAX,
    ensures
        reaches == (2 * binary_product(baseline as nat, bonus as nat) >= (2 * below + 1) * SCALE),
{
    let share = round_to_significand(bonus as u128 * SCALE, 1000);
    let factor = round_to_significand(SCALE + share, 1);
    assert(baseline * factor < ROUNDING_LIMIT) by (nonlinear_arith)
        requires
            baseline <= u32::MAX,
            factor <= 0x100_0000_0000_0000_0000_0000,
    ;
    let product = round_to_significand(baseline as u128 * factor, 1);
    2 * product >= (2 * below + 1) * SCALE
}

/// Raises `baseline` by `bonus` thousandths and rounds to the nearest
/// integer, a half as binary64 arithmetic rounds it, and stops at `u32::MAX`.
pub fn raise(baseline: u128, bonus: u32) -> (required: u32)
    ensures
        required == required_value(baseline as int, bonus as int),
{
    if baseline > u32::MAX as u128 {
        proof {
            lemma_required_value_is_nearest(baseline as int, bonus as int);
        }
        return u32::MAX;
    }
    assert(baseline * (1000 + bonus) <= u64::MAX * 2) by (nonlinear_arith)
        requires
            baseline <= u32::MAX,
            bonus <= u32::MAX,
    ;
    let thousandfold: u128 = baseline * (1000 + bonus as u128);
    let below = thousandfold / 1000;
    let rest = thousandfold % 1000;
    let raised = if rest > 500 || (rest == 500 && product_reaches_half(
        baseline as u32,
        bonus,
        below,
    )) {
        below + 1
    } else {
        below
    };
    if raised > u32::MAX as u128 {
        u32::MAX
    } else {
        raised as u32
    }
}

} // verus!
