//! The knapsack challenge: instances generated from a seed, and the check
//! that a claimed selection of items solves one.

use crate::baseline::{baseline_value, greedy_baseline, raise, required_value, sum, total};
use crate::contract::{ChallengeTrait, DifficultyTrait, SolutionTrait};
use crate::random::{gen_range, range_draw, seed_from_u64, seeded};
use rand::rngs::StdRng;
use std::collections::HashSet;
use vstd::prelude::*;

verus! {

/// Weights and values are drawn from `1` up to, but not including, this bound.
pub const ITEM_BOUND: u32 = 50;

/// The most items an instance can have: with more, the summed weights could
/// pass `u32::MAX`.
pub const MAX_ITEMS: usize = 87_652_393;

/// How large and how hard an instance is: the number of items, and the bonus
/// over the greedy baseline, in thousandths, that a solution must reach.
#[derive(Debug, Clone, Copy, PartialEq, Eq, Structural)]
pub struct Difficulty {
    pub num_items: usize,
    pub better_than_baseline: u32,
}

impl DifficultyTrait<2> for Difficulty {
    /// Reads a difficulty from its two axes. Each axis is reinterpreted as an
    /// unsigned number of the field's width, so a negative axis wraps around.
    fn from_arr(arr: &[i32; 2]) -> (difficulty: Difficulty)
        ensures
            difficulty.num_items == arr[0] as usize,
            difficulty.better_than_baseline == arr[1] as u32,
            arr[0] >= 0 ==> difficulty.num_items == arr[0],
            arr[1] >= 0 ==> difficulty.better_than_baseline == arr[1],
    {
        Difficulty { num_items: arr[0] as usize, better_than_baseline: arr[1] as u32 }
    }

    /// Writes the difficulty as its two axes, each truncated to 32 bits.
    fn to_arr(&self) -> (arr: [i32; 2])
        ensures
            arr[0] == self.num_items as i32,
            arr[1] == self.better_than_baseline as i32,
            self.num_items <= i32::MAX ==> arr[0] == self.num_items,
            self.better_than_baseline <= i32::MAX ==> arr[1] == self.better_than_baseline,
    {
        [self.num_items as i32, self.better_than_baseline as i32]
    }
}

/// A claimed solution: the indices of the items to pack.
#[derive(Debug, Clone, PartialEq, Eq)]
pub struct Solution {
    pub items: Vec<usize>,
}

impl SolutionTrait for Solution {

}

/// An instance: the items, the weight the knapsack holds, and the value a
/// solution must reach.
#[derive(Debug, Clone, PartialEq, Eq)]
pub struct Challenge {
    pub seed: u32,
    pub difficulty: Difficulty,
    pub weights: Vec<u32>,
    pub values: Vec<u32>,
    pub max_weight: u32,
    pub min_value: u32,
}

/// An instance as a mathematical value.
pub struct Instance {
    pub seed: u32,
    pub difficulty: Difficulty,
    pub weights: Seq<u32>,
    pub values: Seq<u32>,
    pub max_weight: u32,
    pub min_value: u32,
}

impl View for Challenge {
    type V = Instance;

    open spec fn view(&self) -> Instance {
        Instance {
            seed: self.seed,
            difficulty: self.difficulty,
            weights: self.weights@,
            values: self.values@,
            max_weight: self.max_weight,
            min_value: self.min_value,
        }
    }
}

/// Why no instance was built.
#[derive(Debug, Clone, Copy, PartialEq, Eq, Structural)]
pub enum InstanceError {
    /// The difficulty asks for more than `MAX_ITEMS` items.
    TooManyItems { num_items: usize },
    /// There are not as many weights, or not as many values, as the
    /// difficulty has items.
    ItemCountMismatch,
    /// Half the summed weights is more than `u32::MAX`.
    CapacityOverflow,
}

/// Why a selection does not solve an instance.
#[derive(Debug, Clone, Copy, PartialEq, Eq, Structural)]
pub enum VerifyError {
    /// Some item is selected twice.
    DuplicateItems,
    /// `item` is selected and the instance has no such item.
    ItemOutOfBounds { item: usize },
    /// The selected items weigh more than the knapsack holds.
    TooHeavy { total_weight: u128, max_weight: u32 },
    /// The selected items are worth less than required.
    TooCheap { total_value: u128, min_value: u32 },
}

/// The generator after `count` draws of a weight or value.
pub open spec fn after_draws(rng: StdRng, count: nat) -> StdRng
    decreases count,
{
    if count == 0 {
        rng
    } else {
        range_draw(after_draws(rng, (count - 1) as nat), 1, ITEM_BOUND).1
    }
}

/// The first `count` weights or values that `rng` yields.
pub open spec fn draws(rng: StdRng, count: nat) -> Seq<u32> {
    Seq::new(count, |i: int| range_draw(after_draws(rng, i as nat), 1, ITEM_BOUND).0)
}

/// The sum of `amounts` over the items that `items` selects.
pub open spec fn selected(amounts: Seq<u32>, items: Seq<usize>) -> int
    decreases items.len(),
{
    if items.len() == 0 {
        0
    } else {
        selected(amounts, items.drop_last()) + amounts[items.last() as int]
    }
}

/// Whether `at` is the place of the first selected item that the instance
/// does not have.
pub open spec fn first_out_of_bounds(items: Seq<usize>, count: nat, at: int) -> bool {
    &&& 0 <= at < items.len()
    &&& items[at] >= count
    &&& forall|j: int| 0 <= j < at ==> items[j] < count
}

impl Instance {
    /// The number of items: those that have both a weight and a value.
    pub open spec fn item_count(self) -> nat {
        if self.weights.len() <= self.values.len() {
            self.weights.len()
        } else {
            self.values.len()
        }
    }

    /// The lists of weights and of values are as long as the difficulty says.
    pub open spec fn well_formed(self) -> bool {
        self.weights.len() == self.difficulty.num_items && self.values.len()
            == self.difficulty.num_items
    }

    /// Why no instance can be built around the given items, if none can.
    pub open spec fn refused(difficulty: Difficulty, weights: Seq<u32>, values: Seq<u32>) -> Option<
        InstanceError,
    > {
        if weights.len() != difficulty.num_items || values.len() != difficulty.num_items {
            Some(InstanceError::ItemCountMismatch)
        } else if total(weights) / 2 > u32::MAX {
            Some(InstanceError::CapacityOverflow)
        } else {
            None
        }
    }

    /// Whether this is the instance that is built around the given items:
    /// the knapsack holds half the summed weights, rounded down, and a
    /// solution must reach the greedy baseline raised by the bonus.
    pub open spec fn built_from(
        self,
        seed: u32,
        difficulty: Difficulty,
        weights: Seq<u32>,
        values: Seq<u32>,
    ) -> bool {
        &&& self.seed == seed
        &&& self.difficulty == difficulty
        &&& self.weights == weights
        &&& self.values == values
        &&& self.max_weight == total(weights) / 2
        &&& self.min_value == required_value(
            baseline_value(weights, values, self.max_weight as int),
            difficulty.better_than_baseline as int,
        )
    }

    /// Whether this is the instance of `seed` and `difficulty`: its weights
    /// are the first draws of the generator seeded with `seed`, its values
    /// the draws after them.
    pub open spec fn generated_by(self, seed: u32, difficulty: Difficulty) -> bool {
        let rng = seeded(seed as u64);
        let count = difficulty.num_items as nat;
        self.built_from(seed, difficulty, draws(rng, count), draws(after_draws(rng, count), count))
    }

    /// What the check of a selection returns. A selection is first held to
    /// the instance's shape, no item twice and none at or past the item
    /// count, then to the knapsack's capacity, then to the required value.
    pub open spec fn verdict(self, items: Seq<usize>) -> Result<(), VerifyError> {
        if !items.no_duplicates() {
            Err(VerifyError::DuplicateItems)
        } else if exists|at: int| first_out_of_bounds(items, self.item_count(), at) {
            let at = choose|at: int| first_out_of_bounds(items, self.item_count(), at);
            Err(VerifyError::ItemOutOfBounds { item: items[at] })
        } else if selected(self.weights, items) > self.max_weight {
            Err(
                VerifyError::TooHeavy {
                    total_weight: selected(self.weights, items) as u128,
                    max_weight: self.max_weight,
                },
            )
        } else if selected(self.values, items) < self.min_value {
            Err(
                VerifyError::TooCheap {
                    total_value: selected(self.values, items) as u128,
                    min_value: self.min_value,
                },
            )
        } else {
            Ok(())
        }
    }
}

/// Draws `count` weights or values from `rng`.
fn draw_items(rng: &mut StdRng, count: usize) -> (items: Vec<u32>)
    ensures
        items@ == draws(*old(rng), count as nat),
        *final(rng) == after_draws(*old(rng), count as nat),
        forall|i: int| 0 <= i < items.len() ==> 1 <= #[trigger] items[i] < ITEM_BOUND,
{
    let ghost start = *rng;
    let mut items: Vec<u32> = Vec::new();
    let mut drawn: usize = 0;
    while drawn < count
        invariant
            drawn <= count,
            items@ == draws(start, drawn as nat),
            *rng == after_draws(start, drawn as nat),
            forall|i: int| 0 <= i < items.len() ==> 1 <= #[trigger] items[i] < ITEM_BOUND,
        decreases count - drawn,
    {
        let item = gen_range(rng, 1, ITEM_BOUND);
        items.push(item);
        drawn = drawn + 1;
    }
    items
}

/// Whether some item stands twice in `items`.
fn has_duplicates(items: &Vec<usize>) -> (found: bool)
    ensures
        found == !items@.no_duplicates(),
{
    broadcast use vstd::std_specs::hash::group_hash_axioms;

    let mut seen: HashSet<usize> = HashSet::new();
    let mut at: usize = 0;
    while at < items.len()
        invariant
            at <= items.len(),
            forall|item: usize|
                seen@.contains(item) <==> exists|j: int| 0 <= j < at && items@[j] == item,
            forall|j: int, k: int| 0 <= j < k < at ==> items@[j] != items@[k],
        decreases items.len() - at,
    {
        let fresh = seen.insert(items[at]);
        if !fresh {
            proof {
                let j = choose|j: int| 0 <= j < at && items@[j] == items@[at as int];
                assert(items@[j] == items@[at as int] && j != at);
            }
            return true;
        }
        at = at + 1;
    }
    false
}

/// The first item of `items` that is not below `count`, if there is one.
fn find_out_of_bounds(items: &Vec<usize>, count: usize) -> (found: Option<usize>)
    ensures
        match found {
            Some(item) => exists|at: int|
                first_out_of_bounds(items@, count as nat, at) && items@[at] == item,
            None => forall|j: int| 0 <= j < items.len() ==> items@[j] < count,
        },
{
    let mut at: usize = 0;
    while at < items.len()
        invariant
            at <= items.len(),
            forall|j: int| 0 <= j < at ==> items@[j] < count,
        decreases items.len() - at,
    {
        if items[at] >= count {
            assert(first_out_of_bounds(items@, count as nat, at as int));
            return Some(items[at]);
        }
        at = at + 1;
    }
    None
}

/// Adds up `amounts` over the items that `items` selects.
fn sum_selected(amounts: &Vec<u32>, items: &Vec<usize>) -> (sum: u128)
    requires
        forall|j: int| 0 <= j < items.len() ==> items@[j] < amounts.len(),
    ensures
        sum == selected(amounts@, items@),
{
    let mut sum: u128 = 0;
    let mut done: usize = 0;
    assert(items@.take(0) == Seq::<usize>::empty());
    while done < items.len()
        invariant
            done <= items.len(),
            forall|j: int| 0 <= j < items.len() ==> items@[j] < amounts.len(),
            sum == selected(amounts@, items@.take(done as int)),
            sum <= done * u32::MAX,
        decreases items.len() - done,
    {
        assert(items@.take(done + 1).drop_last() == items@.take(done as int));
        assert((done + 1) * u32::MAX <= usize::MAX * u32::MAX) by (nonlinear_arith)
            requires
                done < usize::MAX,
        ;
        sum = sum + amounts[items[done]] as u128;
        done = done + 1;
    }
    assert(items@.take(done as int) == items@);
    sum
}

impl ChallengeTrait<Solution, Difficulty, 2> for Challenge {
    type GenerateError = InstanceError;

    type VerifyError = VerifyError;

    open spec fn is_instance(instance: Instance, seed: u32, difficulty: Difficulty) -> bool {
        instance.generated_by(seed, difficulty)
    }

    open spec fn verdict(instance: Instance, solution: Solution) -> Result<(), VerifyError> {
        instance.verdict(solution.items@)
    }

    proof fn lemma_one_instance(first: Instance, second: Instance, seed: u32, difficulty: Difficulty) {
    }

    /// Generates the instance of `seed` and `difficulty`. Weights and values
    /// come from a generator seeded with `seed`, the weights first, so the
    /// same arguments give the same instance. Fails only on a difficulty of
    /// more than `MAX_ITEMS` items.
    fn generate_instance(seed: u32, difficulty: &Difficulty) -> (result: Result<
        Challenge,
        InstanceError,
    >)
        ensures
            difficulty.num_items <= MAX_ITEMS ==> (result matches Ok(challenge)
                && challenge@.generated_by(seed, *difficulty) && challenge@.well_formed()),
            difficulty.num_items > MAX_ITEMS ==> result == Err::<Challenge, InstanceError>(
                InstanceError::TooManyItems { num_items: difficulty.num_items },
            ),
    {
        if difficulty.num_items > MAX_ITEMS {
            return Err(InstanceError::TooManyItems { num_items: difficulty.num_items });
        }
        let mut rng = seed_from_u64(seed as u64);
        let weights = draw_items(&mut rng, difficulty.num_items);
        let values = draw_items(&mut rng, difficulty.num_items);
        proof {
            crate::baseline::lemma_total_bounds(weights@, ITEM_BOUND as int);
            assert(weights@.len() * ITEM_BOUND <= MAX_ITEMS * ITEM_BOUND) by (nonlinear_arith)
                requires
                    weights@.len() <= MAX_ITEMS,
            ;
        }
        Challenge::from_items(seed, *difficulty, weights, values)
    }


    /// Checks that `solution` solves this instance. It must select no item
    /// twice and none that the instance lacks; the selected items must weigh
    /// no more than the knapsack holds and be worth no less than required.
    /// The first of these that fails is the error.
    fn verify_solution(&self, solution: &Solution) -> (result: Result<(), VerifyError>)
        ensures
            result == self@.verdict(solution.items@),
    {
        if has_duplicates(&solution.items) {
            return Err(VerifyError::DuplicateItems);
        }
        if let Some(item) = find_out_of_bounds(&solution.items, self.item_count()) {
            return Err(VerifyError::ItemOutOfBounds { item });
        }
        let total_weight = sum_selected(&self.weights, &solution.items);
        if total_weight > self.max_weight as u128 {
            return Err(VerifyError::TooHeavy { total_weight, max_weight: self.max_weight });
        }
        let total_value = sum_selected(&self.values, &solution.items);
        if total_value < self.min_value as u128 {
            return Err(VerifyError::TooCheap { total_value, min_value: self.min_value });
        }
        Ok(())
    }
}

impl Challenge {
    /// Builds the instance around the given items: the knapsack holds half
    /// the summed weights, rounded down, and a solution must reach the greedy
    /// baseline raised by the difficulty's bonus. Fails if the items are not
    /// as many as the difficulty says, or weigh too much for the capacity
    /// to be stored.
    pub fn from_items(seed: u32, difficulty: Difficulty, weights: Vec<u32>, values: Vec<u32>) -> (result:
        Result<Challenge, InstanceError>)
        ensures
            match result {
                Ok(challenge) => {
                    &&& Instance::refused(difficulty, weights@, values@) is None
                    &&& challenge@.built_from(seed, difficulty, weights@, values@)
                    &&& challenge@.well_formed()
                },
                Err(error) => Instance::refused(difficulty, weights@, values@) == Some(error),
            },
    {
        if weights.len() != difficulty.num_items || values.len() != difficulty.num_items {
            return Err(InstanceError::ItemCountMismatch);
        }
        let half = sum(&weights) / 2;
        if half > u32::MAX as u128 {
            return Err(InstanceError::CapacityOverflow);
        }
        let max_weight: u32 = half as u32;
        let baseline = greedy_baseline(&weights, &values, max_weight);
        let min_value = raise(baseline, difficulty.better_than_baseline);
        Ok(Challenge { seed, difficulty, weights, values, max_weight, min_value })
    }

    /// The number of items: those that have both a weight and a value.
    pub fn item_count(&self) -> (count: usize)
        ensures
            count == self@.item_count(),
    {
        if self.weights.len() <= self.values.len() {
            self.weights.len()
        } else {
            self.values.len()
        }
    }

    /// Whether the lists of weights and of values are as long as the
    /// difficulty says.
    pub fn is_well_formed(&self) -> (well_formed: bool)
        ensures
            well_formed == self@.well_formed(),
    {
        self.weights.len() == self.difficulty.num_items && self.values.len()
            == self.difficulty.num_items
    }
}

/// Generation is deterministic: two instances of one seed and one
/// difficulty have the same weights, values, capacity and required value.
pub proof fn lemma_generation_is_deterministic(
    seed: u32,
    difficulty: Difficulty,
    first: Instance,
    second: Instance,
)
    requires
        first.generated_by(seed, difficulty),
        second.generated_by(seed, difficulty),
    ensures
        first == second,
{
}

/// A selection that holds an item twice is rejected for it.
pub proof fn lemma_duplicate_is_rejected(instance: Instance, items: Seq<usize>, i: int, j: int)
    requires
        0 <= i < j < items.len(),
        items[i] == items[j],
    ensures
        instance.verdict(items) == Err::<(), VerifyError>(VerifyError::DuplicateItems),
{
}

/// An out-of-bounds item has a first among the out-of-bounds items.
proof fn lemma_first_out_of_bounds_exists(items: Seq<usize>, count: nat, at: int)
    requires
        0 <= at < items.len(),
        items[at] >= count,
    ensures
        exists|first: int| first_out_of_bounds(items, count, first),
    decreases at,
{
    if forall|j: int| 0 <= j < at ==> items[j] < count {
        assert(first_out_of_bounds(items, count, at));
    } else {
        let j = choose|j: int| 0 <= j < at && items[j] >= count;
        lemma_first_out_of_bounds_exists(items, count, j);
    }
}

/// A selection that holds an item which the instance lacks is rejected: for
/// that, unless it also holds an item twice.
pub proof fn lemma_out_of_bounds_is_rejected(instance: Instance, items: Seq<usize>, at: int)
    requires
        0 <= at < items.len(),
        items[at] >= instance.item_count(),
    ensures
        instance.verdict(items) is Err,
        items.no_duplicates() ==> (instance.verdict(items) matches Err(
            VerifyError::ItemOutOfBounds { item },
        ) && item >= instance.item_count() && items.contains(item)),
{
    lemma_first_out_of_bounds_exists(items, instance.item_count(), at);
    let first = choose|first: int| first_out_of_bounds(items, instance.item_count(), first);
    assert(items[first] == items[first]);
}

/// A selection whose items weigh more than the knapsack holds is rejected.
pub proof fn lemma_overweight_is_rejected(instance: Instance, items: Seq<usize>)
    requires
        selected(instance.weights, items) > instance.max_weight,
    ensures
        instance.verdict(items) is Err,
{
}

/// A selection of distinct items of the instance that weigh no more than
/// the knapsack holds and are worth no less than required is accepted; no
/// other selection is.
pub proof fn lemma_accepted_iff_feasible(instance: Instance, items: Seq<usize>)
    ensures
        instance.verdict(items) is Ok <==> {
            &&& items.no_duplicates()
            &&& forall|i: int| 0 <= i < items.len() ==> items[i] < instance.item_count()
            &&& selected(instance.weights, items) <= instance.max_weight
            &&& selected(instance.values, items) >= instance.min_value
        },
{
    if exists|i: int| 0 <= i < items.len() && items[i] >= instance.item_count() {
        let i = choose|i: int| 0 <= i < items.len() && items[i] >= instance.item_count();
        lemma_first_out_of_bounds_exists(items, instance.item_count(), i);
    }
}

} // verus!
