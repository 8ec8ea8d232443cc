//! The records that a scheduling cycle reads and writes.

use crate::registry::Registry;
use vstd::prelude::*;

verus! {

/// What a benchmark runs: who runs it, against which block, challenge and
/// algorithm, and how hard.
#[derive(Debug, PartialEq, Eq)]
pub struct BenchmarkSettings {
    pub player_id: String,
    pub block_id: String,
    pub challenge_id: String,
    pub algorithm_id: String,
    pub difficulty: Vec<i32>,
}

/// `BenchmarkSettings` as a mathematical value.
pub struct SettingsView {
    pub player_id: Seq<char>,
    pub block_id: Seq<char>,
    pub challenge_id: Seq<char>,
    pub algorithm_id: Seq<char>,
    pub difficulty: Seq<i32>,
}

impl View for BenchmarkSettings {
    type V = SettingsView;

    open spec fn view(&self) -> SettingsView {
        SettingsView {
            player_id: self.player_id@,
            block_id: self.block_id@,
            challenge_id: self.challenge_id@,
            algorithm_id: self.algorithm_id@,
            difficulty: self.difficulty@,
        }
    }
}

impl Clone for BenchmarkSettings {
    fn clone(&self) -> (copy: BenchmarkSettings)
        ensures
            copy@ == self@,
    {
        BenchmarkSettings {
            player_id: self.player_id.clone(),
            block_id: self.block_id.clone(),
            challenge_id: self.challenge_id.clone(),
            algorithm_id: self.algorithm_id.clone(),
            difficulty: self.difficulty.clone(),
        }
    }
}

/// The limits that the algorithm's virtual machine runs under.
#[derive(Debug, Clone, Copy, PartialEq, Eq, Structural)]
pub struct VmConfig {
    pub max_memory: u64,
    pub max_fuel: u64,
}

/// The view of an optional list of nonces.
pub open spec fn nonces_view(nonces: Option<Vec<u32>>) -> Option<Seq<u32>> {
    match nonces {
        Some(list) => Some(list@),
        None => None,
    }
}

/// Copies an optional list of nonces.
pub fn clone_nonces(nonces: &Option<Vec<u32>>) -> (copy: Option<Vec<u32>>)
    ensures
        nonces_view(copy) == nonces_view(*nonces),
{
    match nonces {
        Some(list) => Some(list.clone()),
        None => None,
    }
}

/// One scheduling decision: the benchmark to run and all that running it takes.
#[derive(Debug, PartialEq, Eq)]
pub struct Job {
    pub benchmark_id: String,
    pub download_url: String,
    pub settings: BenchmarkSettings,
    pub solution_signature_threshold: u32,
    pub sampled_nonces: Option<Vec<u32>>,
    pub wasm_vm_config: VmConfig,
}

/// `Job` as a mathematical value.
pub struct JobView {
    pub benchmark_id: Seq<char>,
    pub download_url: Seq<char>,
    pub settings: SettingsView,
    pub solution_signature_threshold: u32,
    pub sampled_nonces: Option<Seq<u32>>,
    pub wasm_vm_config: VmConfig,
}

impl View for Job {
    type V = JobView;

    open spec fn view(&self) -> JobView {
        JobView {
            benchmark_id: self.benchmark_id@,
            download_url: self.download_url@,
            settings: self.settings@,
            solution_signature_threshold: self.solution_signature_threshold,
            sampled_nonces: nonces_view(self.sampled_nonces),
            wasm_vm_config: self.wasm_vm_config,
        }
    }
}

impl Clone for Job {
    fn clone(&self) -> (copy: Job)
        ensures
            copy@ == self@,
    {
        Job {
            benchmark_id: self.benchmark_id.clone(),
            download_url: self.download_url.clone(),
            settings: self.settings.clone(),
            solution_signature_threshold: self.solution_signature_threshold,
            sampled_nonces: clone_nonces(&self.sampled_nonces),
            wasm_vm_config: self.wasm_vm_config,
        }
    }
}

impl JobView {
    /// A recompute carries the nonces that were sampled before; fresh work
    /// carries none.
    pub open spec fn is_recompute(self) -> bool {
        self.sampled_nonces is Some
    }
}

/// When a benchmark was started and how many solutions it has found.
#[derive(Debug, Clone, Copy, PartialEq, Eq, Structural)]
pub struct BenchmarkDetails {
    pub block_started: u32,
    pub num_solutions: u32,
}

/// What sampling has settled for a benchmark: the nonces to verify again.
#[derive(Debug, Clone, PartialEq, Eq)]
pub struct BenchmarkState {
    pub sampled_nonces: Option<Vec<u32>>,
}

/// What is published of one solution.
#[derive(Debug, Clone, Copy, PartialEq, Eq, Structural)]
pub struct SolutionMetaData {
    pub nonce: u32,
    pub solution_signature: u32,
}

/// One unit of work, queued or submitted.
#[derive(Debug, Clone, PartialEq, Eq)]
pub struct Benchmark {
    pub id: String,
    pub settings: BenchmarkSettings,
    pub details: BenchmarkDetails,
    pub state: Option<BenchmarkState>,
    pub solutions_meta_data: Option<Vec<SolutionMetaData>>,
}

/// `Benchmark` as a mathematical value. The state is given by the nonces
/// that it holds.
pub struct BenchmarkView {
    pub id: Seq<char>,
    pub settings: SettingsView,
    pub details: BenchmarkDetails,
    pub state: Option<Option<Seq<u32>>>,
    pub solutions_meta_data: Option<Seq<SolutionMetaData>>,
}

impl View for Benchmark {
    type V = BenchmarkView;

    open spec fn view(&self) -> BenchmarkView {
        BenchmarkView {
            id: self.id@,
            settings: self.settings@,
            details: self.details,
            state: match self.state {
                Some(state) => Some(nonces_view(state.sampled_nonces)),
                None => None,
            },
            solutions_meta_data: match self.solutions_meta_data {
                Some(list) => Some(list@),
                None => None,
            },
        }
    }
}

/// What the run of one solution left behind.
#[derive(Debug, Clone, Copy, PartialEq, Eq, Structural)]
pub struct SolutionData {
    pub nonce: u32,
    pub runtime_signature: u32,
    pub fuel_consumed: u64,
}

/// What the chain has settled for a proof.
#[derive(Debug, Clone, Copy, PartialEq, Eq, Structural)]
pub struct ProofState {
    pub block_confirmed: u32,
}

/// The evidence for a benchmark, under the benchmark's id.
#[derive(Debug, Clone, PartialEq, Eq)]
pub struct Proof {
    pub benchmark_id: String,
    pub state: Option<ProofState>,
    pub solutions_data: Option<Vec<SolutionData>>,
}

/// `Proof` as a mathematical value.
pub struct ProofView {
    pub benchmark_id: Seq<char>,
    pub state: Option<ProofState>,
    pub solutions_data: Option<Seq<SolutionData>>,
}

impl View for Proof {
    type V = ProofView;

    open spec fn view(&self) -> ProofView {
        ProofView {
            benchmark_id: self.benchmark_id@,
            state: self.state,
            solutions_data: match self.solutions_data {
                Some(list) => Some(list@),
                None => None,
            },
        }
    }
}

/// A verdict that a benchmark was fraudulent.
#[derive(Debug, Clone, PartialEq, Eq)]
pub struct Fraud {
    pub benchmark_id: String,
}

/// The least and the greatest difficulty of a challenge, axis by axis.
#[derive(Debug, Clone, Copy, PartialEq, Eq)]
pub struct DifficultyBounds {
    pub min_difficulty: [i32; 2],
    pub max_difficulty: [i32; 2],
}

impl DifficultyBounds {
    /// Whether `point` lies within the bounds on both axes.
    pub open spec fn holds(self, point: Seq<i32>) -> bool {
        &&& point.len() == 2
        &&& self.min_difficulty[0] <= point[0] <= self.max_difficulty[0]
        &&& self.min_difficulty[1] <= point[1] <= self.max_difficulty[1]
    }

    /// Whether `point` lies within the bounds on both axes.
    pub fn contains(&self, point: &[i32; 2]) -> (inside: bool)
        ensures
            inside == self.holds(point@),
    {
        self.min_difficulty[0] <= point[0] && point[0] <= self.max_difficulty[0]
            && self.min_difficulty[1] <= point[1] && point[1] <= self.max_difficulty[1]
    }
}

/// The latest block of the chain: its height, the bounds on each
/// challenge's difficulty, and the virtual machine's limits.
#[derive(Debug, Clone, PartialEq, Eq)]
pub struct Block {
    pub id: String,
    pub height: u32,
    pub difficulty_bounds: Registry<DifficultyBounds>,
    pub wasm_vm_config: VmConfig,
}

/// A challenge as the latest block knows it. The frontier marks where
/// qualifying difficulties begin; its points are already scaled into the
/// challenge's bounds.
#[derive(Debug, Clone, PartialEq, Eq)]
pub struct ChallengeData {
    pub id: String,
    pub num_qualifiers: u32,
    pub solution_signature_threshold: u32,
    pub scaled_frontier: Vec<[i32; 2]>,
}

/// The player's own standing in the latest block: qualifiers by challenge.
#[derive(Debug, Clone, PartialEq, Eq)]
pub struct PlayerBlockData {
    pub num_qualifiers_by_challenge: Option<Registry<u32>>,
}

/// What is known of the chain and of the player's work.
#[derive(Debug, Clone, PartialEq, Eq)]
pub struct QueryData {
    pub latest_block: Block,
    pub player_data: Option<PlayerBlockData>,
    pub challenges: Vec<ChallengeData>,
    pub download_urls: Registry<String>,
    pub benchmarks: Registry<Benchmark>,
    pub proofs: Registry<Proof>,
    pub frauds: Registry<Fraud>,
}

impl QueryData {
    /// No registry holds a key twice, and each benchmark, proof and fraud
    /// verdict stands under the id of its benchmark.
    pub open spec fn well_formed(&self) -> bool {
        &&& self.latest_block.difficulty_bounds.well_formed()
        &&& self.download_urls.well_formed()
        &&& self.benchmarks.well_formed()
        &&& self.proofs.well_formed()
        &&& self.frauds.well_formed()
        &&& forall|i: int|
            0 <= i < self.benchmarks.count() ==> #[trigger] self.benchmarks.key(i)
                == self.benchmarks.value(i).id@
        &&& forall|i: int|
            0 <= i < self.proofs.count() ==> #[trigger] self.proofs.key(i) == self.proofs.value(
                i,
            ).benchmark_id@
        &&& forall|i: int|
            0 <= i < self.frauds.count() ==> #[trigger] self.frauds.key(i) == self.frauds.value(
                i,
            ).benchmark_id@
    }
}

/// The store that a scheduling cycle works on: what is known, the algorithm
/// chosen for each challenge, and the job that is current.
#[derive(Debug, Clone, PartialEq, Eq)]
pub struct State {
    pub query_data: QueryData,
    pub selected_algorithms: Registry<String>,
    pub job: Option<Job>,
}

impl State {
    /// What is known is well formed, and no challenge has two algorithms.
    pub open spec fn well_formed(&self) -> bool {
        self.query_data.well_formed() && self.selected_algorithms.well_formed()
    }
}

/// Why a cycle produced no job.
#[derive(Debug, Clone, PartialEq, Eq)]
pub enum SetupError {
    /// No download address is known for the algorithm.
    MissingDownloadUrl { algorithm_id: String },
    /// The benchmark has a state, and the state holds no sampled nonces.
    MissingSampledNonces { benchmark_id: String },
    /// No challenge has an algorithm assigned to it.
    NoCandidates,
    /// The player has more qualifiers for the challenge than the challenge
    /// has in all, which leaves it a weight below zero.
    InvalidWeight { challenge_id: String },
    /// The draw names no candidate.
    SelectedChallengeMissing { drawn: usize },
    /// The block sets no bounds on the challenge's difficulty.
    MissingDifficultyBounds { challenge_id: String },
    /// The challenge's frontier has no point.
    EmptyFrontier { challenge_id: String },
    /// A point of the challenge's frontier lies outside the bounds.
    FrontierOutsideBounds { challenge_id: String },
}

/// `SetupError` as a mathematical value.
pub enum SetupErrorView {
    MissingDownloadUrl { algorithm_id: Seq<char> },
    MissingSampledNonces { benchmark_id: Seq<char> },
    NoCandidates,
    InvalidWeight { challenge_id: Seq<char> },
    SelectedChallengeMissing { drawn: usize },
    MissingDifficultyBounds { challenge_id: Seq<char> },
    EmptyFrontier { challenge_id: Seq<char> },
    FrontierOutsideBounds { challenge_id: Seq<char> },
}

impl View for SetupError {
    type V = SetupErrorView;

    open spec fn view(&self) -> SetupErrorView {
        match self {
            SetupError::MissingDownloadUrl { algorithm_id } => SetupErrorView::MissingDownloadUrl {
                algorithm_id: algorithm_id@,
            },
            SetupError::MissingSampledNonces {
                benchmark_id,
            } => SetupErrorView::MissingSampledNonces { benchmark_id: benchmark_id@ },
            SetupError::NoCandidates => SetupErrorView::NoCandidates,
            SetupError::InvalidWeight { challenge_id } => SetupErrorView::InvalidWeight {
                challenge_id: challenge_id@,
            },
            SetupError::SelectedChallengeMissing {
                drawn,
            } => SetupErrorView::SelectedChallengeMissing { drawn: *drawn },
            SetupError::MissingDifficultyBounds {
                challenge_id,
            } => SetupErrorView::MissingDifficultyBounds { challenge_id: challenge_id@ },
            SetupError::EmptyFrontier { challenge_id } => SetupErrorView::EmptyFrontier {
                challenge_id: challenge_id@,
            },
            SetupError::FrontierOutsideBounds {
                challenge_id,
            } => SetupErrorView::FrontierOutsideBounds { challenge_id: challenge_id@ },
        }
    }
}

} // verus!
