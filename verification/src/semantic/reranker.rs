//! Normalized scores.
use crate::json::{ONE_RANK, ZERO_RANK, rank_lt, ranks_less};
use vstd::prelude::*;

verus! {

/// A cosine similarity within zero and one.
pub open spec fn clamped(score: u64) -> u64 {
    if rank_lt(score, ZERO_RANK) {
        ZERO_RANK
    } else if rank_lt(ONE_RANK, score) {
        ONE_RANK
    } else {
        score
    }
}

/// Normalizes a raw cosine similarity score to the range from zero to one. Cosine
/// similarity is at least minus one; negative similarity means that the document
/// is irrelevant, so it maps to zero. Scores are binary64 numbers, by their ranks
/// (see [`crate::json::Number`]).
pub fn normalize_cosine(score: u64) -> (r: u64)
    ensures
        r == clamped(score),
{
    if ranks_less(score, ZERO_RANK) {
        ZERO_RANK
    } else if ranks_less(ONE_RANK, score) {
        ONE_RANK
    } else {
        score
    }
}

/// A normalized score is neither below zero nor above one, and normalizing keeps
/// the order of scores.
pub proof fn law_normalized_scores(a: u64, b: u64)
    ensures
        !rank_lt(clamped(a), ZERO_RANK),
        !rank_lt(ONE_RANK, clamped(a)),
        clamped(clamped(a)) == clamped(a),
        rank_lt(a, b) ==> !rank_lt(clamped(b), clamped(a)),
{
}

} // verus!
