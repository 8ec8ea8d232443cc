//! One scheduling cycle: a benchmark that waits to be recomputed comes
//! first, fresh work is picked only when none does, and the job that was
//! decided is written to the store.

use crate::fairness::{challenge_candidates, pick_challenge, picked, weighed, Candidate};
use crate::frontier::{difficulty_at, difficulty_refused, pick_difficulty, JITTER_BOUND};
use crate::random::{alphanumeric_draw, is_alphanumeric, range_draw, sample_string};
use crate::records::{
    Benchmark, BenchmarkDetails, BenchmarkSettings, BenchmarkView, Job, JobView, Proof, ProofView,
    QueryData, SettingsView, SetupError, SetupErrorView, State,
};
use crate::registry::Registry;
use rand::rngs::StdRng;
use vstd::prelude::*;

verus! {

/// The download address of an algorithm, or the error that none is known.
pub open spec fn download_url(algorithm_id: Seq<char>, download_urls: &Registry<String>) -> Result<
    Seq<char>,
    SetupErrorView,
> {
    if download_urls.contains_key(algorithm_id) {
        Ok(download_urls.lookup(algorithm_id)@)
    } else {
        Err(SetupErrorView::MissingDownloadUrl { algorithm_id })
    }
}

/// Looks up where the algorithm can be downloaded from.
pub fn get_download_url(algorithm_id: &String, download_urls: &Registry<String>) -> (result: Result<
    String,
    SetupError,
>)
    ensures
        match result {
            Ok(url) => download_url(algorithm_id@, download_urls) == Ok::<
                Seq<char>,
                SetupErrorView,
            >(url@),
            Err(error) => download_url(algorithm_id@, download_urls) == Err::<
                Seq<char>,
                SetupErrorView,
            >(error@),
        },
{
    match download_urls.get(algorithm_id) {
        Some(url) => Ok(url.clone()),
        None => Err(SetupError::MissingDownloadUrl { algorithm_id: algorithm_id.clone() }),
    }
}

impl QueryData {
    /// Whether the benchmark at `at` waits to be recomputed: sampling has
    /// given it a state, and it has neither a proof nor a fraud verdict.
    pub open spec fn eligible(&self, at: int) -> bool {
        &&& 0 <= at < self.benchmarks.count()
        &&& !self.frauds.contains_key(self.benchmarks.key(at))
        &&& !self.proofs.contains_key(self.benchmarks.key(at))
        &&& self.benchmarks.value(at).state is Some
    }

    /// Whether the benchmark at `at` is the first that waits to be recomputed.
    pub open spec fn is_first_eligible(&self, at: int) -> bool {
        self.eligible(at) && forall|j: int| 0 <= j < at ==> !self.eligible(j)
    }

    /// The job that recomputes the benchmark at `at`: it keeps the
    /// benchmark's settings and the nonces sampled for it, and accepts every
    /// solution signature. It takes the nonces and a download address for the
    /// algorithm; what is missing is the error, the nonces first.
    pub open spec fn recompute_job(&self, at: int) -> Result<JobView, SetupErrorView> {
        let benchmark = self.benchmarks.value(at)@;
        match benchmark.state {
            Some(Some(sampled_nonces)) => match download_url(
                benchmark.settings.algorithm_id,
                &self.download_urls,
            ) {
                Ok(url) => Ok(
                    JobView {
                        benchmark_id: benchmark.id,
                        download_url: url,
                        settings: benchmark.settings,
                        solution_signature_threshold: u32::MAX,
                        sampled_nonces: Some(sampled_nonces),
                        wasm_vm_config: self.latest_block.wasm_vm_config,
                    },
                ),
                Err(error) => Err(error),
            },
            _ => Err(
                SetupErrorView::MissingSampledNonces { benchmark_id: self.benchmarks.key(at) },
            ),
        }
    }

    /// What the scan for a benchmark to recompute returns: the job for the
    /// first that waits, no job if none waits.
    pub open spec fn recompute(&self) -> Result<Option<JobView>, SetupErrorView> {
        if exists|at: int| self.is_first_eligible(at) {
            match self.recompute_job(choose|at: int| self.is_first_eligible(at)) {
                Ok(job) => Ok(Some(job)),
                Err(error) => Err(error),
            }
        } else {
            Ok(None)
        }
    }
}

/// The view of what a scan returned.
pub open spec fn scan_view(result: Result<Option<Job>, SetupError>) -> Result<
    Option<JobView>,
    SetupErrorView,
> {
    match result {
        Ok(Some(job)) => Ok(Some(job@)),
        Ok(None) => Ok(None),
        Err(error) => Err(error@),
    }
}

/// Builds the job that recomputes `benchmark`, which stands at `at`.
fn recompute_benchmark(data: &QueryData, at: usize, benchmark: &Benchmark) -> (result: Result<
    Job,
    SetupError,
>)
    requires
        at < data.benchmarks.count(),
        *benchmark == data.benchmarks.value(at as int),
        benchmark.state is Some,
    ensures
        match result {
            Ok(job) => data.recompute_job(at as int) == Ok::<JobView, SetupErrorView>(job@),
            Err(error) => data.recompute_job(at as int) == Err::<JobView, SetupErrorView>(error@),
        },
{
    let sampled_nonces = match &benchmark.state {
        Some(state) => match &state.sampled_nonces {
            Some(sampled_nonces) => sampled_nonces.clone(),
            None => {
                return Err(
                    SetupError::MissingSampledNonces {
                        benchmark_id: data.benchmarks.key_at(at).clone(),
                    },
                );
            },
        },
        None => {
            return Err(
                SetupError::MissingSampledNonces {
                    benchmark_id: data.benchmarks.key_at(at).clone(),
                },
            );
        },
    };
    let download_url = match get_download_url(
        &benchmark.settings.algorithm_id,
        &data.download_urls,
    ) {
        Ok(url) => url,
        Err(error) => {
            return Err(error);
        },
    };
    Ok(
        Job {
            benchmark_id: benchmark.id.clone(),
            download_url,
            settings: benchmark.settings.clone(),
            solution_signature_threshold: u32::MAX,
            sampled_nonces: Some(sampled_nonces),
            wasm_vm_config: data.latest_block.wasm_vm_config,
        },
    )
}

/// Scans the benchmarks for one that waits to be recomputed, and returns the
/// job for the first such. A benchmark waits if sampling has given it a
/// state and it has neither a proof nor a fraud verdict. That none waits is
/// no error; that the one found lacks its nonces or a download address is.
pub fn find_settings_to_recompute(data: &QueryData) -> (result: Result<Option<Job>, SetupError>)
    ensures
        scan_view(result) == data.recompute(),
        result matches Ok(Some(job)) ==> job@.is_recompute(),
{
    let mut at: usize = 0;
    while at < data.benchmarks.len()
        invariant
            at <= data.benchmarks.count(),
            forall|j: int| 0 <= j < at ==> !data.eligible(j),
        decreases data.benchmarks.count() - at,
    {
        let benchmark_id = data.benchmarks.key_at(at);
        let benchmark = data.benchmarks.value_at(at);
        if !data.frauds.contains(benchmark_id) && !data.proofs.contains(benchmark_id)
            && benchmark.state.is_some() {
            assert(data.is_first_eligible(at as int));
            return match recompute_benchmark(data, at, benchmark) {
                Ok(job) => Ok(Some(job)),
                Err(error) => Err(error),
            };
        }
        at = at + 1;
    }
    Ok(None)
}

/// The number of characters in the id of a fresh benchmark.
pub const BENCHMARK_ID_LENGTH: usize = 32;

/// The job for fresh work on the challenge that the draw `drawn` picks, and
/// the generator as picking leaves it. The difficulty comes off the
/// challenge's frontier and the id is drawn, in this order; the job asks for
/// the solution signature threshold that the challenge sets, and carries no
/// sampled nonces.
pub open spec fn fresh_job(state: &State, player_id: Seq<char>, rng: StdRng, drawn: usize) -> (
    Result<JobView, SetupErrorView>,
    StdRng,
) {
    let data = &state.query_data;
    match picked(&data.player_data, data.challenges@, &state.selected_algorithms, drawn) {
        Err(error) => (Err(error), rng),
        Ok(at) => {
            let challenge = data.challenges@[at];
            match difficulty_refused(&data.latest_block, &challenge) {
                Some(error) => (Err(error), rng),
                None => {
                    let (jitter, after_jitter) = range_draw(rng, 0, JITTER_BOUND);
                    let (benchmark_id, after_id) = alphanumeric_draw(
                        after_jitter,
                        BENCHMARK_ID_LENGTH,
                    );
                    let algorithm_id = state.selected_algorithms.lookup(challenge.id@)@;
                    match download_url(algorithm_id, &data.download_urls) {
                        Err(error) => (Err(error), after_id),
                        Ok(url) => (
                            Ok(
                                JobView {
                                    benchmark_id,
                                    download_url: url,
                                    settings: SettingsView {
                                        player_id,
                                        block_id: data.latest_block.id@,
                                        challenge_id: challenge.id@,
                                        algorithm_id,
                                        difficulty: difficulty_at(
                                            challenge.scaled_frontier@,
                                            jitter as int,
                                        ),
                                    },
                                    solution_signature_threshold: challenge.solution_signature_threshold,
                                    sampled_nonces: None,
                                    wasm_vm_config: data.latest_block.wasm_vm_config,
                                },
                            ),
                            after_id,
                        ),
                    }
                },
            }
        },
    }
}

/// The view of a job or an error.
pub open spec fn job_view(result: Result<Job, SetupError>) -> Result<JobView, SetupErrorView> {
    match result {
        Ok(job) => Ok(job@),
        Err(error) => Err(error@),
    }
}

/// Decides on fresh work. `drawn` is the place, among the challenges that
/// an algorithm is assigned to, of the one that a draw by weight has
/// chosen. The job is for that challenge and the algorithm assigned to it,
/// at a difficulty within the block's bounds, under a new id of
/// `BENCHMARK_ID_LENGTH` letters and digits.
pub fn pick_settings_to_benchmark(
    state: &State,
    player_id: &String,
    rng: &mut StdRng,
    drawn: usize,
) -> (result: Result<Job, SetupError>)
    ensures
        job_view(result) == fresh_job(state, player_id@, *old(rng), drawn).0,
        *final(rng) == fresh_job(state, player_id@, *old(rng), drawn).1,
        result matches Ok(job) ==> {
            &&& !job@.is_recompute()
            &&& state.selected_algorithms.contains_key(job.settings.challenge_id@)
            &&& state.query_data.latest_block.difficulty_bounds.lookup(
                job.settings.challenge_id@,
            ).holds(job.settings.difficulty@)
            &&& job.benchmark_id@.len() == BENCHMARK_ID_LENGTH
            &&& forall|i: int|
                0 <= i < BENCHMARK_ID_LENGTH ==> is_alphanumeric(#[trigger] job.benchmark_id@[i])
        },
{
    let data = &state.query_data;
    let challenge = match pick_challenge(
        &data.player_data,
        &data.challenges,
        &state.selected_algorithms,
        drawn,
    ) {
        Ok(challenge) => challenge,
        Err(error) => {
            return Err(error);
        },
    };
    let algorithm_id = match state.selected_algorithms.get(&challenge.id) {
        Some(algorithm_id) => algorithm_id.clone(),
        // Not reached: a challenge is picked only among those that an
        // algorithm is assigned to.
        None => {
            return Err(SetupError::NoCandidates);
        },
    };
    let difficulty = match pick_difficulty(rng, &data.latest_block, challenge) {
        Ok(difficulty) => difficulty,
        Err(error) => {
            return Err(error);
        },
    };
    let benchmark_id = sample_string(rng, BENCHMARK_ID_LENGTH);
    let download_url = match get_download_url(&algorithm_id, &data.download_urls) {
        Ok(url) => url,
        Err(error) => {
            return Err(error);
        },
    };
    Ok(
        Job {
            benchmark_id,
            download_url,
            settings: BenchmarkSettings {
                player_id: player_id.clone(),
                block_id: data.latest_block.id.clone(),
                challenge_id: challenge.id.clone(),
                algorithm_id,
                difficulty,
            },
            solution_signature_threshold: challenge.solution_signature_threshold,
            sampled_nonces: None,
            wasm_vm_config: data.latest_block.wasm_vm_config,
        },
    )
}

/// The benchmark that is entered for a fresh job: started at the latest
/// block, with no solution yet and no state.
pub open spec fn placeholder_benchmark(job: JobView, height: u32) -> BenchmarkView {
    BenchmarkView {
        id: job.benchmark_id,
        settings: job.settings,
        details: BenchmarkDetails { block_started: height, num_solutions: 0 },
        state: None,
        solutions_meta_data: Some(Seq::empty()),
    }
}

/// The proof that is entered for a job: no state, and no solution data yet.
pub open spec fn placeholder_proof(job: JobView) -> ProofView {
    ProofView { benchmark_id: job.benchmark_id, state: None, solutions_data: Some(Seq::empty()) }
}

impl State {
    /// Whether `self` is `before` with `job` written to it: `job` is the
    /// current job, a placeholder proof stands under the job's benchmark id,
    /// and so does a placeholder benchmark if the job is fresh work. All
    /// else is as before.
    pub open spec fn is_commit_of(&self, before: &State, job: JobView) -> bool {
        let data = &self.query_data;
        let old_data = &before.query_data;
        &&& self.selected_algorithms == before.selected_algorithms
        &&& data.latest_block == old_data.latest_block
        &&& data.player_data == old_data.player_data
        &&& data.challenges == old_data.challenges
        &&& data.download_urls == old_data.download_urls
        &&& data.frauds == old_data.frauds
        &&& self.job matches Some(current) && current@ == job
        &&& if job.is_recompute() {
            data.benchmarks == old_data.benchmarks
        } else {
            &&& data.benchmarks.is_insertion_under(&old_data.benchmarks, job.benchmark_id)
            &&& data.benchmarks.value(old_data.benchmarks.place_for(job.benchmark_id))@
                == placeholder_benchmark(job, old_data.latest_block.height)
        }
        &&& data.proofs.is_insertion_under(&old_data.proofs, job.benchmark_id)
        &&& data.proofs.value(old_data.proofs.place_for(job.benchmark_id))@ == placeholder_proof(
            job,
        )
    }
}

/// Writes a decided job to the store: the job becomes the current job, a
/// placeholder proof is entered under its benchmark id, and for fresh work
/// a placeholder benchmark too.
pub fn commit_job(state: &mut State, job: Job)
    ensures
        final(state).is_commit_of(old(state), job@),
        old(state).well_formed() ==> final(state).well_formed(),
{
    if job.sampled_nonces.is_none() {
        let benchmark = Benchmark {
            id: job.benchmark_id.clone(),
            settings: job.settings.clone(),
            details: BenchmarkDetails {
                block_started: state.query_data.latest_block.height,
                num_solutions: 0,
            },
            state: None,
            solutions_meta_data: Some(Vec::new()),
        };
        state.query_data.benchmarks.insert(job.benchmark_id.clone(), benchmark);
    }
    let proof = Proof {
        benchmark_id: job.benchmark_id.clone(),
        state: None,
        solutions_data: Some(Vec::new()),
    };
    state.query_data.proofs.insert(job.benchmark_id.clone(), proof);
    state.job = Some(job);
}

/// How far a cycle has come.
#[derive(Debug, Clone, PartialEq, Eq)]
pub enum Progress {
    /// A job was decided and written to the store.
    Committed,
    /// Fresh work is due, and a challenge has to be drawn for it first: one
    /// of these candidates, each with the chance that its weight gives it.
    NeedsDraw(Vec<Candidate>),
}

/// What a cycle comes to.
pub enum Outcome {
    Failed(SetupErrorView),
    Committed(JobView),
    NeedsDraw(Seq<Candidate>),
}

/// What a cycle comes to on `state`, and the generator as the cycle leaves
/// it. A benchmark that waits to be recomputed decides the cycle. Only if
/// none waits is fresh work picked: with no draw at hand the cycle asks for
/// one among the candidates, with a draw it picks the job.
pub open spec fn decide(state: &State, player_id: Seq<char>, rng: StdRng, drawn: Option<usize>) -> (
    Outcome,
    StdRng,
) {
    match state.query_data.recompute() {
        Err(error) => (Outcome::Failed(error), rng),
        Ok(Some(job)) => (Outcome::Committed(job), rng),
        Ok(None) => match drawn {
            None => match weighed(
                &state.query_data.player_data,
                state.query_data.challenges@,
                &state.selected_algorithms,
            ) {
                Err(error) => (Outcome::Failed(error), rng),
                Ok(candidates) => (Outcome::NeedsDraw(candidates), rng),
            },
            Some(drawn) => match fresh_job(state, player_id, rng, drawn) {
                (Err(error), after) => (Outcome::Failed(error), after),
                (Ok(job), after) => (Outcome::Committed(job), after),
            },
        },
    }
}

/// Runs one step of a scheduling cycle on the store. A benchmark that waits
/// to be recomputed becomes the job. If none waits, fresh work is picked:
/// called without a draw, the step hands out the candidates to draw a
/// challenge from; called again with the draw, it picks the job. A job that
/// was decided is written to the store. On an error, and when a draw is
/// asked for, the store is left as it was.
pub fn execute(state: &mut State, player_id: &String, rng: &mut StdRng, drawn: Option<usize>) -> (result:
    Result<Progress, SetupError>)
    ensures
        old(state).well_formed() ==> final(state).well_formed(),
        *final(rng) == decide(old(state), player_id@, *old(rng), drawn).1,
        match decide(old(state), player_id@, *old(rng), drawn).0 {
            Outcome::Failed(error) => {
                &&& result matches Err(failure)
                &&& failure@ == error
                &&& *final(state) == *old(state)
            },
            Outcome::Committed(job) => {
                &&& result matches Ok(Progress::Committed)
                &&& final(state).is_commit_of(old(state), job)
            },
            Outcome::NeedsDraw(candidates) => {
                &&& result matches Ok(Progress::NeedsDraw(list))
                &&& list@ == candidates
                &&& *final(state) == *old(state)
            },
        },
{
    let job = match find_settings_to_recompute(&state.query_data) {
        Err(error) => {
            return Err(error);
        },
        Ok(Some(job)) => job,
        Ok(None) => match drawn {
            None => {
                return match challenge_candidates(
                    &state.query_data.player_data,
                    &state.query_data.challenges,
                    &state.selected_algorithms,
                ) {
                    Ok(candidates) => Ok(Progress::NeedsDraw(candidates)),
                    Err(error) => Err(error),
                };
            },
            Some(drawn) => match pick_settings_to_benchmark(state, player_id, rng, drawn) {
                Ok(job) => job,
                Err(error) => {
                    return Err(error);
                },
            },
        },
    };
    commit_job(state, job);
    Ok(Progress::Committed)
}

/// Among benchmarks that wait to be recomputed there is a first.
pub proof fn lemma_first_eligible_exists(data: &QueryData, at: int)
    requires
        data.eligible(at),
    ensures
        exists|first: int| data.is_first_eligible(first) && first <= at,
    decreases at,
{
    if forall|j: int| 0 <= j < at ==> !data.eligible(j) {
        assert(data.is_first_eligible(at));
    } else {
        let j = choose|j: int| 0 <= j < at && data.eligible(j);
        lemma_first_eligible_exists(data, j);
    }
}

/// Where a benchmark waits to be recomputed, the cycle is decided by the
/// scan for such benchmarks, whatever was drawn: it commits the job that
/// recomputes the first that waits, or fails as the scan does. It neither
/// asks for a draw nor picks fresh work, and it draws nothing.
pub proof fn lemma_recompute_comes_first(
    state: &State,
    player_id: Seq<char>,
    rng: StdRng,
    drawn: Option<usize>,
    at: int,
)
    requires
        state.query_data.eligible(at),
    ensures
        decide(state, player_id, rng, drawn).1 == rng,
        match decide(state, player_id, rng, drawn).0 {
            Outcome::Failed(error) => state.query_data.recompute() == Err::<
                Option<JobView>,
                SetupErrorView,
            >(error),
            Outcome::Committed(job) => {
                &&& job.is_recompute()
                &&& exists|first: int|
                    state.query_data.is_first_eligible(first) && state.query_data.recompute_job(
                        first,
                    ) == Ok::<JobView, SetupErrorView>(job)
            },
            Outcome::NeedsDraw(_) => false,
        },
{
    lemma_first_eligible_exists(&state.query_data, at);
}

/// A job that a cycle commits carries sampled nonces if and only if it
/// recomputes a benchmark, which it does if and only if one waited.
pub proof fn lemma_nonces_mark_recompute(
    state: &State,
    player_id: Seq<char>,
    rng: StdRng,
    drawn: Option<usize>,
)
    ensures
        decide(state, player_id, rng, drawn).0 matches Outcome::Committed(job) ==> (
        job.is_recompute() <==> exists|at: int| state.query_data.eligible(at)),
{
    if exists|at: int| state.query_data.eligible(at) {
        let at = choose|at: int| state.query_data.eligible(at);
        lemma_recompute_comes_first(state, player_id, rng, drawn, at);
    }
}

} // verus!
