//! The weight with which each challenge stands in the draw for fresh work:
//! the smaller the player's share of a challenge's qualifiers, the greater
//! the weight.

use crate::records::{ChallengeData, PlayerBlockData, SetupError, SetupErrorView};
use crate::registry::Registry;
use vstd::prelude::*;

verus! {

/// Every weight is raised by one part in this many, which keeps the weight
/// of a challenge whose qualifiers are all the player's above zero.
pub const EPSILON_INVERSE: u64 = 10_000_000_000;

/// A challenge that fresh work can be drawn for, with the numbers that its
/// weight is made of.
#[derive(Debug, Clone, Copy, PartialEq, Eq, Structural)]
pub struct Candidate {
    /// The challenge's place in the list of challenges.
    pub challenge: usize,
    /// The player's qualifiers for the challenge.
    pub player_qualifiers: u32,
    /// All qualifiers for the challenge.
    pub total_qualifiers: u32,
}

impl Candidate {
    /// Whether the player has a share of the qualifiers. Where either number
    /// is zero the share counts as zero.
    pub open spec fn has_share(self) -> bool {
        self.player_qualifiers != 0 && self.total_qualifiers != 0
    }

    /// The numerator of the weight. The weight is one, less the player's
    /// share, plus the raise; it is held as a fraction so that it is exact.
    pub open spec fn weight_numerator(self) -> int {
        if self.has_share() {
            (self.total_qualifiers - self.player_qualifiers) * EPSILON_INVERSE
                + self.total_qualifiers
        } else {
            EPSILON_INVERSE + 1
        }
    }

    /// The denominator of the weight, which is positive.
    pub open spec fn weight_denominator(self) -> int {
        if self.has_share() {
            self.total_qualifiers * EPSILON_INVERSE
        } else {
            EPSILON_INVERSE as int
        }
    }

    /// Whether the weight is above zero.
    pub open spec fn weighs(self) -> bool {
        self.weight_numerator() > 0
    }

    /// Whether the weight is above that of `other`.
    pub open spec fn outweighs(self, other: Candidate) -> bool {
        self.weight_numerator() * other.weight_denominator() > other.weight_numerator()
            * self.weight_denominator()
    }

    /// The weight as a fraction, numerator first.
    pub fn weight(&self) -> (fraction: (i128, i128))
        ensures
            fraction.0 == self.weight_numerator(),
            fraction.1 == self.weight_denominator(),
            fraction.1 > 0,
    {
        let unit = EPSILON_INVERSE as i128;
        if self.player_qualifiers != 0 && self.total_qualifiers != 0 {
            let total = self.total_qualifiers as i128;
            let lacking = total - self.player_qualifiers as i128;
            assert(-0x1_0000_0000 * unit <= lacking * unit <= 0x1_0000_0000 * unit && 0 < total
                * unit <= 0x1_0000_0000 * unit) by (nonlinear_arith)
                requires
                    -0x1_0000_0000 <= lacking <= 0x1_0000_0000,
                    0 < total <= 0x1_0000_0000,
                    unit > 0,
            ;
            (lacking * unit + total, total * unit)
        } else {
            (unit + 1, unit)
        }
    }

    /// Whether the weight is above zero: it is unless the player has more
    /// qualifiers than there are in all.
    pub fn has_weight(&self) -> (weighs: bool)
        ensures
            weighs == self.weighs(),
            weighs == (self.total_qualifiers == 0 || self.player_qualifiers
                <= self.total_qualifiers),
    {
        self.weight().0 > 0
    }
}

/// Of two challenges with the same number of qualifiers, which is not zero,
/// the one for which the player has fewer weighs more.
pub proof fn lemma_fewer_qualifiers_weigh_more(fewer: Candidate, more: Candidate)
    requires
        fewer.total_qualifiers == more.total_qualifiers,
        fewer.total_qualifiers > 0,
        fewer.player_qualifiers < more.player_qualifiers,
    ensures
        fewer.outweighs(more),
{
    let unit = EPSILON_INVERSE as int;
    let total = more.total_qualifiers as int;
    let most = more.player_qualifiers as int;
    let least = fewer.player_qualifiers as int;
    if fewer.has_share() {
        assert(((total - least) * unit + total) * (total * unit) > ((total - most) * unit + total)
            * (total * unit)) by (nonlinear_arith)
            requires
                least < most,
                total > 0,
                unit > 0,
        ;
    } else {
        assert((unit + 1) * (total * unit) > ((total - most) * unit + total) * unit)
            by (nonlinear_arith)
            requires
                most > 0,
                total > 0,
                unit > 0,
        ;
    }
}

/// The player's qualifiers for a challenge: what the player's data holds
/// for it, zero where it holds nothing.
pub open spec fn qualifiers_of(player_data: &Option<PlayerBlockData>, challenge_id: Seq<char>) -> u32 {
    match player_data {
        Some(PlayerBlockData { num_qualifiers_by_challenge: Some(qualifiers) }) => if qualifiers.contains_key(
            challenge_id,
        ) {
            qualifiers.lookup(challenge_id)
        } else {
            0
        },
        _ => 0,
    }
}

/// The candidates among the first `upto` challenges, in the order of the
/// challenges: those that an algorithm is assigned to.
pub open spec fn candidates_among(
    player_data: &Option<PlayerBlockData>,
    challenges: Seq<ChallengeData>,
    selected_algorithms: &Registry<String>,
    upto: int,
) -> Seq<Candidate>
    decreases upto,
{
    if upto <= 0 {
        Seq::empty()
    } else {
        let before = candidates_among(player_data, challenges, selected_algorithms, upto - 1);
        let challenge = challenges[upto - 1];
        if selected_algorithms.contains_key(challenge.id@) {
            before.push(
                Candidate {
                    challenge: (upto - 1) as usize,
                    player_qualifiers: qualifiers_of(player_data, challenge.id@),
                    total_qualifiers: challenge.num_qualifiers,
                },
            )
        } else {
            before
        }
    }
}

/// Whether `at` is the place of the first candidate whose weight is not
/// above zero.
pub open spec fn is_first_weightless(candidates: Seq<Candidate>, at: int) -> bool {
    &&& 0 <= at < candidates.len()
    &&& !candidates[at].weighs()
    &&& forall|j: int| 0 <= j < at ==> candidates[j].weighs()
}

/// Among candidates whose weight is not above zero there is a first.
proof fn lemma_first_weightless_exists(candidates: Seq<Candidate>, at: int)
    requires
        0 <= at < candidates.len(),
        !candidates[at].weighs(),
    ensures
        exists|first: int| is_first_weightless(candidates, first),
    decreases at,
{
    if forall|j: int| 0 <= j < at ==> candidates[j].weighs() {
        assert(is_first_weightless(candidates, at));
    } else {
        let j = choose|j: int| 0 <= j < at && !candidates[j].weighs();
        lemma_first_weightless_exists(candidates, j);
    }
}

/// The candidates that a draw can be made from, or why none can: there is
/// no candidate, or some candidate's weight is not above zero.
pub open spec fn weighed(
    player_data: &Option<PlayerBlockData>,
    challenges: Seq<ChallengeData>,
    selected_algorithms: &Registry<String>,
) -> Result<Seq<Candidate>, SetupErrorView> {
    let candidates = candidates_among(
        player_data,
        challenges,
        selected_algorithms,
        challenges.len() as int,
    );
    if candidates.len() == 0 {
        Err(SetupErrorView::NoCandidates)
    } else if exists|at: int| is_first_weightless(candidates, at) {
        let at = choose|at: int| is_first_weightless(candidates, at);
        Err(SetupErrorView::InvalidWeight { challenge_id: challenges[candidates[at].challenge as int].id@ })
    } else {
        Ok(candidates)
    }
}

/// Every candidate is a challenge of the list that an algorithm is assigned
/// to, and carries that challenge's numbers.
pub proof fn lemma_candidates_have_algorithms(
    player_data: &Option<PlayerBlockData>,
    challenges: Seq<ChallengeData>,
    selected_algorithms: &Registry<String>,
    upto: int,
)
    requires
        0 <= upto <= challenges.len() <= usize::MAX,
    ensures
        forall|k: int|
            #![trigger candidates_among(player_data, challenges, selected_algorithms, upto)[k]]
            0 <= k < candidates_among(player_data, challenges, selected_algorithms, upto).len() ==> {
                let candidate = candidates_among(player_data, challenges, selected_algorithms, upto)[k];
                &&& candidate.challenge < upto
                &&& selected_algorithms.contains_key(challenges[candidate.challenge as int].id@)
                &&& candidate.total_qualifiers == challenges[candidate.challenge as int].num_qualifiers
                &&& candidate.player_qualifiers == qualifiers_of(
                    player_data,
                    challenges[candidate.challenge as int].id@,
                )
            },
        candidates_among(player_data, challenges, selected_algorithms, upto).len() <= upto,
    decreases upto,
{
    if upto > 0 {
        lemma_candidates_have_algorithms(player_data, challenges, selected_algorithms, upto - 1);
        let before = candidates_among(player_data, challenges, selected_algorithms, upto - 1);
        let list = candidates_among(player_data, challenges, selected_algorithms, upto);
        assert forall|k: int| 0 <= k < list.len() implies {
            let candidate = #[trigger] list[k];
            &&& candidate.challenge < upto
            &&& selected_algorithms.contains_key(challenges[candidate.challenge as int].id@)
            &&& candidate.total_qualifiers == challenges[candidate.challenge as int].num_qualifiers
            &&& candidate.player_qualifiers == qualifiers_of(
                player_data,
                challenges[candidate.challenge as int].id@,
            )
        } by {
            if k < before.len() {
                assert(list[k] == before[k]);
            } else {
                assert(selected_algorithms.contains_key(challenges[upto - 1].id@));
                assert(list == before.push(list[k]));
                assert(list[k].challenge == upto - 1);
            }
        }
    }
}

/// Reads the player's qualifiers for a challenge.
fn player_qualifiers(player_data: &Option<PlayerBlockData>, challenge_id: &String) -> (qualifiers: u32)
    ensures
        qualifiers == qualifiers_of(player_data, challenge_id@),
{
    match player_data {
        Some(data) => match &data.num_qualifiers_by_challenge {
            Some(by_challenge) => match by_challenge.get(challenge_id) {
                Some(qualifiers) => *qualifiers,
                None => 0,
            },
            None => 0,
        },
        None => 0,
    }
}

/// The view of a list of candidates or an error.
pub open spec fn weighed_view(result: Result<Vec<Candidate>, SetupError>) -> Result<
    Seq<Candidate>,
    SetupErrorView,
> {
    match result {
        Ok(candidates) => Ok(candidates@),
        Err(error) => Err(error@),
    }
}

/// Lists the challenges that fresh work can be drawn for, each with the
/// numbers of its weight: the challenges that an algorithm is assigned to,
/// in the order of the list. Fails if there is none, or if one of them has
/// a weight that is not above zero.
pub fn challenge_candidates(
    player_data: &Option<PlayerBlockData>,
    challenges: &Vec<ChallengeData>,
    selected_algorithms: &Registry<String>,
) -> (result: Result<Vec<Candidate>, SetupError>)
    ensures
        weighed_view(result) == weighed(player_data, challenges@, selected_algorithms),
{
    let mut candidates: Vec<Candidate> = Vec::new();
    let mut at: usize = 0;
    while at < challenges.len()
        invariant
            at <= challenges.len(),
            candidates@ == candidates_among(
                player_data,
                challenges@,
                selected_algorithms,
                at as int,
            ),
        decreases challenges.len() - at,
    {
        let challenge = &challenges[at];
        if selected_algorithms.contains(&challenge.id) {
            candidates.push(
                Candidate {
                    challenge: at,
                    player_qualifiers: player_qualifiers(player_data, &challenge.id),
                    total_qualifiers: challenge.num_qualifiers,
                },
            );
        }
        at = at + 1;
    }
    if candidates.len() == 0 {
        return Err(SetupError::NoCandidates);
    }
    proof {
        lemma_candidates_have_algorithms(
            player_data,
            challenges@,
            selected_algorithms,
            challenges.len() as int,
        );
    }
    let mut checked: usize = 0;
    while checked < candidates.len()
        invariant
            checked <= candidates.len(),
            candidates@ == candidates_among(
                player_data,
                challenges@,
                selected_algorithms,
                challenges.len() as int,
            ),
            candidates.len() > 0,
            forall|j: int| 0 <= j < checked ==> candidates@[j].weighs(),
            forall|k: int| 0 <= k < candidates.len() ==> candidates@[k].challenge < challenges.len(),
        decreases candidates.len() - checked,
    {
        if !candidates[checked].has_weight() {
            proof {
                assert(is_first_weightless(candidates@, checked as int));
                let first = choose|first: int| is_first_weightless(candidates@, first);
                assert(first == checked) by {
                    if first < checked {
                        assert(candidates@[first].weighs());
                    } else if first > checked {
                        assert(candidates@[checked as int].weighs());
                    }
                }
            }
            return Err(
                SetupError::InvalidWeight {
                    challenge_id: challenges[candidates[checked].challenge].id.clone(),
                },
            );
        }
        checked = checked + 1;
    }
    Ok(candidates)
}

/// The challenge that a draw picks, or why it picks none: `drawn` is the
/// place of the pick among the candidates.
pub open spec fn picked(
    player_data: &Option<PlayerBlockData>,
    challenges: Seq<ChallengeData>,
    selected_algorithms: &Registry<String>,
    drawn: usize,
) -> Result<int, SetupErrorView> {
    match weighed(player_data, challenges, selected_algorithms) {
        Ok(candidates) => if drawn < candidates.len() {
            Ok(candidates[drawn as int].challenge as int)
        } else {
            Err(SetupErrorView::SelectedChallengeMissing { drawn })
        },
        Err(error) => Err(error),
    }
}

/// A challenge that an algorithm is assigned to is among the candidates.
pub proof fn lemma_assigned_challenge_is_candidate(
    player_data: &Option<PlayerBlockData>,
    challenges: Seq<ChallengeData>,
    selected_algorithms: &Registry<String>,
    upto: int,
    at: int,
)
    requires
        0 <= at < upto <= challenges.len() <= usize::MAX,
        selected_algorithms.contains_key(challenges[at].id@),
    ensures
        exists|k: int|
            0 <= k < candidates_among(player_data, challenges, selected_algorithms, upto).len()
                && #[trigger] candidates_among(
                player_data,
                challenges,
                selected_algorithms,
                upto,
            )[k].challenge == at,
    decreases upto,
{
    let before = candidates_among(player_data, challenges, selected_algorithms, upto - 1);
    let list = candidates_among(player_data, challenges, selected_algorithms, upto);
    if at == upto - 1 {
        assert(list[before.len() as int].challenge == at);
    } else {
        lemma_assigned_challenge_is_candidate(
            player_data,
            challenges,
            selected_algorithms,
            upto - 1,
            at,
        );
        let k = choose|k: int| 0 <= k < before.len() && #[trigger] before[k].challenge == at;
        assert(list[k] == before[k]);
    }
}

/// A draw picks a challenge whenever there is a candidate, every candidate
/// has a weight above zero, and the draw names one of them. The challenge
/// that it picks is one of the list, and an algorithm is assigned to it.
pub proof fn lemma_picked_has_algorithm(
    player_data: &Option<PlayerBlockData>,
    challenges: Seq<ChallengeData>,
    selected_algorithms: &Registry<String>,
    drawn: usize,
)
    requires
        challenges.len() <= usize::MAX,
    ensures
        picked(player_data, challenges, selected_algorithms, drawn) matches Ok(at) ==> (0 <= at
            < challenges.len() && selected_algorithms.contains_key(challenges[at].id@)),
        picked(player_data, challenges, selected_algorithms, drawn) is Ok <==> {
            let candidates = candidates_among(
                player_data,
                challenges,
                selected_algorithms,
                challenges.len() as int,
            );
            &&& drawn < candidates.len()
            &&& forall|k: int| 0 <= k < candidates.len() ==> candidates[k].weighs()
        },
{
    let candidates = candidates_among(
        player_data,
        challenges,
        selected_algorithms,
        challenges.len() as int,
    );
    if exists|k: int| 0 <= k < candidates.len() && !candidates[k].weighs() {
        let k = choose|k: int| 0 <= k < candidates.len() && !candidates[k].weighs();
        lemma_first_weightless_exists(candidates, k);
    }
    lemma_candidates_have_algorithms(
        player_data,
        challenges,
        selected_algorithms,
        challenges.len() as int,
    );
}

/// Picks the challenge for fresh work. The candidates are the challenges
/// that an algorithm is assigned to; `drawn` is the place, among them, of
/// the one that a draw by weight has chosen. Fails as `challenge_candidates`
/// does, and if `drawn` is no place among the candidates.
pub fn pick_challenge<'a>(
    player_data: &Option<PlayerBlockData>,
    challenges: &'a Vec<ChallengeData>,
    selected_algorithms: &Registry<String>,
    drawn: usize,
) -> (result: Result<&'a ChallengeData, SetupError>)
    ensures
        match result {
            Ok(challenge) => {
                &&& picked(player_data, challenges@, selected_algorithms, drawn) matches Ok(at)
                &&& 0 <= at < challenges.len()
                &&& *challenge == challenges@[at]
                &&& selected_algorithms.contains_key(challenge.id@)
            },
            Err(error) => picked(player_data, challenges@, selected_algorithms, drawn) == Err::<
                int,
                SetupErrorView,
            >(error@),
        },
{
    let candidates = match challenge_candidates(player_data, challenges, selected_algorithms) {
        Ok(candidates) => candidates,
        Err(error) => {
            return Err(error);
        },
    };
    if drawn >= candidates.len() {
        return Err(SetupError::SelectedChallengeMissing { drawn });
    }
    proof {
        lemma_candidates_have_algorithms(
            player_data,
            challenges@,
            selected_algorithms,
            challenges.len() as int,
        );
    }
    Ok(&challenges[candidates[drawn].challenge])
}

} // verus!
