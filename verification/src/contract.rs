//! What every kind of challenge offers: instances generated from a seed and
//! a difficulty, and a check of claimed solutions against an instance.

use vstd::prelude::*;

verus! {

/// A difficulty of `N` axes.
pub trait DifficultyTrait<const N: usize>: Sized {
    /// Reads the difficulty from its axes.
    fn from_arr(arr: &[i32; N]) -> Self;

    /// Writes the difficulty as its axes.
    fn to_arr(&self) -> [i32; N];
}

/// A claimed solution.
pub trait SolutionTrait {

}

/// A kind of challenge, with solutions of type `T` and difficulties of type
/// `U`. Generation depends on the seed and the difficulty alone, so that
/// whoever holds them can build the instance again; the check depends on
/// the instance and the solution alone.
pub trait ChallengeTrait<T: SolutionTrait, U: DifficultyTrait<N>, const N: usize>: Sized + View {
    /// Why no instance was generated.
    type GenerateError;

    /// Why a solution was rejected.
    type VerifyError;

    /// Whether `instance` is the instance of `seed` and `difficulty`.
    spec fn is_instance(instance: Self::V, seed: u32, difficulty: U) -> bool;

    /// What the check of `solution` against `instance` returns.
    spec fn verdict(instance: Self::V, solution: T) -> Result<(), Self::VerifyError>;

    /// A seed and a difficulty have no more than one instance.
    proof fn lemma_one_instance(first: Self::V, second: Self::V, seed: u32, difficulty: U)
        requires
            Self::is_instance(first, seed, difficulty),
            Self::is_instance(second, seed, difficulty),
        ensures
            first == second,
    ;

    /// Generates the instance of `seed` and `difficulty`.
    fn generate_instance(seed: u32, difficulty: &U) -> (result: Result<Self, Self::GenerateError>)
        ensures
            result matches Ok(challenge) ==> Self::is_instance(challenge@, seed, *difficulty),
    ;

    /// Checks that `solution` solves this instance, and says why if it does
    /// not.
    fn verify_solution(&self, solution: &T) -> (result: Result<(), Self::VerifyError>)
        ensures
            result == Self::verdict(self@, *solution),
    ;
}

} // verus!
