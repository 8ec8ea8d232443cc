//! The difficulty of fresh work, picked off a challenge's frontier: low on
//! the first axis, high on the second.

use crate::random::{gen_range, range_draw};
use crate::ranking::{ranking, sort};
use crate::records::{Block, ChallengeData, DifficultyBounds, SetupError, SetupErrorView};
use rand::rngs::StdRng;
use vstd::prelude::*;
use vstd::seq_lib::to_multiset_contains;

verus! {

/// The jitter is drawn from zero up to, but not including, this bound.
pub const JITTER_BOUND: u32 = 3;

/// The values that the points take on one axis, in the order of the points.
pub open spec fn axis(points: Seq<[i32; 2]>, which: int) -> Seq<i32> {
    Seq::new(points.len(), |i: int| points[i][which])
}

/// The values that the points take on one axis, in rising order.
pub open spec fn sorted_axis(points: Seq<[i32; 2]>, which: int) -> Seq<i32> {
    axis(points, which).sort_by(ranking::<i32>())
}

/// The place that is read on the first axis: a fifth of the way up, rounded
/// down, plus the jitter, and no further than the last place.
pub open spec fn place(count: int, jitter: int) -> int {
    if count / 5 + jitter >= count {
        count - 1
    } else {
        count / 5 + jitter
    }
}

/// The difficulty that `jitter` picks off `points`: on the first axis the
/// value at `place`, counted from the least; on the second axis the value
/// at the same place counted from the greatest.
pub open spec fn difficulty_at(points: Seq<[i32; 2]>, jitter: int) -> Seq<i32> {
    let at = place(points.len() as int, jitter);
    seq![sorted_axis(points, 0)[at], sorted_axis(points, 1)[points.len() - at - 1]]
}

/// Whether every point lies within the bounds.
pub open spec fn all_within(bounds: DifficultyBounds, points: Seq<[i32; 2]>) -> bool {
    forall|i: int| 0 <= i < points.len() ==> bounds.holds(#[trigger] points[i]@)
}

/// A difficulty picked off points that lie within bounds lies within them.
pub proof fn lemma_difficulty_within_bounds(
    bounds: DifficultyBounds,
    points: Seq<[i32; 2]>,
    jitter: int,
)
    requires
        points.len() > 0,
        jitter >= 0,
        all_within(bounds, points),
    ensures
        bounds.holds(difficulty_at(points, jitter)),
{
    let at = place(points.len() as int, jitter);
    lemma_sorted_axis_keeps_values(points, 0, at);
    lemma_sorted_axis_keeps_values(points, 1, points.len() - at - 1);
    let first = choose|i: int| 0 <= i < points.len() && points[i][0] == sorted_axis(points, 0)[at];
    let second = choose|i: int|
        0 <= i < points.len() && points[i][1] == sorted_axis(points, 1)[points.len() - at - 1];
    assert(bounds.holds(points[first]@));
    assert(bounds.holds(points[second]@));
}

/// Each value of a sorted axis is the value of some point, and there are as
/// many values as points.
pub proof fn lemma_sorted_axis_keeps_values(points: Seq<[i32; 2]>, which: int, at: int)
    requires
        0 <= at < points.len(),
    ensures
        sorted_axis(points, which).len() == points.len(),
        exists|i: int| 0 <= i < points.len() && points[i][which] == sorted_axis(points, which)[at],
{
    let values = axis(points, which);
    let sorted = sorted_axis(points, which);
    crate::ranking::lemma_ranking_is_total::<i32>();
    values.lemma_sort_by_ensures(ranking::<i32>());
    vstd::seq_lib::to_multiset_len(values);
    vstd::seq_lib::to_multiset_len(sorted);
    to_multiset_contains(sorted, sorted[at]);
    to_multiset_contains(values, sorted[at]);
    assert(sorted.contains(sorted[at]));
    let i = choose|i: int| 0 <= i < values.len() && values[i] == sorted[at];
    assert(points[i][which] == sorted[at]);
}

/// Reads one axis off the points.
fn read_axis(points: &Vec<[i32; 2]>, which: usize) -> (values: Vec<i32>)
    requires
        which < 2,
    ensures
        values@ == axis(points@, which as int),
{
    let mut values: Vec<i32> = Vec::new();
    let mut at: usize = 0;
    while at < points.len()
        invariant
            at <= points.len(),
            which < 2,
            values@ == axis(points@, which as int).take(at as int),
        decreases points.len() - at,
    {
        values.push(points[at][which]);
        at = at + 1;
    }
    values
}

/// Picks the difficulty that `jitter` gives on `points`. Each axis is
/// sorted by itself, so the two values need not come from one point. There
/// is none to pick where there is no point.
pub fn difficulty_for(points: &Vec<[i32; 2]>, jitter: u32) -> (difficulty: Option<Vec<i32>>)
    ensures
        match difficulty {
            Some(picked) => points.len() > 0 && picked@ == difficulty_at(points@, jitter as int),
            None => points.len() == 0,
        },
{
    let count = points.len();
    if count == 0 {
        return None;
    }
    let first = sort(&read_axis(points, 0));
    let second = sort(&read_axis(points, 1));
    let base = count / 5;
    let room = count - 1 - base;
    let at = if jitter as usize > room {
        count - 1
    } else {
        base + jitter as usize
    };
    let mut picked: Vec<i32> = Vec::new();
    picked.push(first[at]);
    picked.push(second[count - at - 1]);
    Some(picked)
}

/// Whether every point lies within the bounds.
fn frontier_within(bounds: &DifficultyBounds, points: &Vec<[i32; 2]>) -> (within: bool)
    ensures
        within == all_within(*bounds, points@),
{
    let mut at: usize = 0;
    while at < points.len()
        invariant
            at <= points.len(),
            forall|i: int| 0 <= i < at ==> bounds.holds(#[trigger] points@[i]@),
        decreases points.len() - at,
    {
        if !bounds.contains(&points[at]) {
            return false;
        }
        at = at + 1;
    }
    true
}

/// Why no difficulty can be picked for the challenge, if none can: the
/// block sets no bounds on it, its frontier is empty, or a point of its
/// frontier lies outside the bounds.
pub open spec fn difficulty_refused(block: &Block, challenge: &ChallengeData) -> Option<
    SetupErrorView,
> {
    if !block.difficulty_bounds.contains_key(challenge.id@) {
        Some(SetupErrorView::MissingDifficultyBounds { challenge_id: challenge.id@ })
    } else if challenge.scaled_frontier@.len() == 0 {
        Some(SetupErrorView::EmptyFrontier { challenge_id: challenge.id@ })
    } else if !all_within(
        block.difficulty_bounds.lookup(challenge.id@),
        challenge.scaled_frontier@,
    ) {
        Some(SetupErrorView::FrontierOutsideBounds { challenge_id: challenge.id@ })
    } else {
        None
    }
}

/// Picks the difficulty of fresh work for `challenge`: a jitter is drawn
/// from `rng`, and the difficulty is read off the challenge's frontier at
/// the place that the jitter gives. The difficulty lies within the bounds
/// that the block sets on the challenge. On an error nothing is drawn.
pub fn pick_difficulty(rng: &mut StdRng, block: &Block, challenge: &ChallengeData) -> (result:
    Result<Vec<i32>, SetupError>)
    ensures
        match result {
            Ok(difficulty) => {
                &&& difficulty_refused(block, challenge) is None
                &&& difficulty@ == difficulty_at(
                    challenge.scaled_frontier@,
                    range_draw(*old(rng), 0, JITTER_BOUND).0 as int,
                )
                &&& *final(rng) == range_draw(*old(rng), 0, JITTER_BOUND).1
                &&& block.difficulty_bounds.lookup(challenge.id@).holds(difficulty@)
            },
            Err(error) => {
                &&& difficulty_refused(block, challenge) == Some(error@)
                &&& *final(rng) == *old(rng)
            },
        },
{
    let bounds = match block.difficulty_bounds.get(&challenge.id) {
        Some(bounds) => bounds,
        None => {
            return Err(SetupError::MissingDifficultyBounds { challenge_id: challenge.id.clone() });
        },
    };
    if challenge.scaled_frontier.len() == 0 {
        return Err(SetupError::EmptyFrontier { challenge_id: challenge.id.clone() });
    }
    if !frontier_within(bounds, &challenge.scaled_frontier) {
        return Err(SetupError::FrontierOutsideBounds { challenge_id: challenge.id.clone() });
    }
    let jitter = gen_range(rng, 0, JITTER_BOUND);
    proof {
        lemma_difficulty_within_bounds(*bounds, challenge.scaled_frontier@, jitter as int);
    }
    match difficulty_for(&challenge.scaled_frontier, jitter) {
        Some(difficulty) => Ok(difficulty),
        None => Err(SetupError::EmptyFrontier { challenge_id: challenge.id.clone() }),
    }
}

} // verus!
