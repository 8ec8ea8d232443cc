//! The seeded generator that instances and fresh jobs draw from.
//!
//! Nothing in this module is proved: each item states what the `rand` crate
//! does, and the rest of the library is verified against these statements.

use rand::distributions::{Alphanumeric, DistString};
use rand::rngs::StdRng;
use rand::{Rng, SeedableRng};
use vstd::prelude::*;

verus! {

/// `rand::rngs::StdRng`, carried through the library as an opaque value.
#[verifier::external_type_specification]
#[verifier::external_body]
pub struct ExStdRng(StdRng);

/// The generator that `StdRng::seed_from_u64` returns for `seed`.
pub uninterp spec fn seeded(seed: u64) -> StdRng;

/// The number that `Rng::gen_range(low..high)` returns on `rng`, and the
/// generator as the call leaves it.
pub uninterp spec fn range_draw(rng: StdRng, low: u32, high: u32) -> (u32, StdRng);

/// The string that `Alphanumeric.sample_string(rng, len)` returns on `rng`,
/// and the generator as the call leaves it.
pub uninterp spec fn alphanumeric_draw(rng: StdRng, len: usize) -> (Seq<char>, StdRng);

/// The characters that `Alphanumeric` samples from.
pub open spec fn is_alphanumeric(c: char) -> bool {
    ('A' <= c && c <= 'Z') || ('a' <= c && c <= 'z') || ('0' <= c && c <= '9')
}

/// Calls `StdRng::seed_from_u64`. The generator depends on the seed alone.
#[verifier::external_body]
pub(crate) fn seed_from_u64(seed: u64) -> (rng: StdRng)
    ensures
        rng == seeded(seed),
{
    StdRng::seed_from_u64(seed)
}

/// Calls `Rng::gen_range` on the half-open range `low..high`, which panics
/// when the range is empty. The number lies in the range, and it and the
/// generator's next state depend on the generator and the range alone.
#[verifier::external_body]
pub(crate) fn gen_range(rng: &mut StdRng, low: u32, high: u32) -> (value: u32)
    requires
        low < high,
    ensures
        (value, *final(rng)) == range_draw(*old(rng), low, high),
        low <= value < high,
{
    rng.gen_range(low..high)
}

/// Calls `Alphanumeric.sample_string`. The string has `len` characters, each
/// a letter or digit of ASCII, and it and the generator's next state depend
/// on the generator and `len` alone.
#[verifier::external_body]
pub(crate) fn sample_string(rng: &mut StdRng, len: usize) -> (text: String)
    ensures
        (text@, *final(rng)) == alphanumeric_draw(*old(rng), len),
        text@.len() == len,
        forall|i: int| 0 <= i < len ==> is_alphanumeric(#[trigger] text@[i]),
{
    Alphanumeric.sample_string(rng, len)
}

} // verus!
