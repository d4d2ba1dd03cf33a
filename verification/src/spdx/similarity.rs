use vstd::prelude::*;
use crate::text::lowercase;
use crate::text::same_ignoring_case;
use crate::text::same_text;

verus! {

/// The bit pattern of the double 1.0, the score of identical strings.
pub const ONE: u64 = 0x3FF0_0000_0000_0000;

/// The bit pattern of positive infinity; every larger pattern is a NaN or
/// carries the sign bit.
pub const INFINITY: u64 = 0x7FF0_0000_0000_0000;

/// The bit pattern of the Jaro-Winkler similarity that `strsim` computes for
/// two strings, an IEEE 754 double.
pub uninterp spec fn jaro_winkler(a: Seq<char>, b: Seq<char>) -> u64;

/// `strsim::jaro_winkler`: the similarity of the two strings, handed out as
/// the bits of the double that the function returns.
#[verifier::external_body]
fn jaro_winkler_bits(a: &str, b: &str) -> (bits: u64)
    ensures
        bits == jaro_winkler(a@, b@),
{
    strsim::jaro_winkler(a, b).to_bits()
}

/// The double behind `raw` brought into the unit interval: a number from 0.0
/// to 1.0 stays, a larger one becomes 1.0, and a NaN or a negative number
/// becomes 0.0. Among the results the order of the bit patterns is the order
/// of the numbers.
pub open spec fn unit_score(raw: u64) -> u64 {
    if raw <= ONE {
        raw
    } else if raw <= INFINITY {
        ONE
    } else {
        0
    }
}

/// Brings the bit pattern of a double into the unit interval.
pub fn normalize_score(raw: u64) -> (score: u64)
    ensures
        score == unit_score(raw),
        score <= ONE,
{
    if raw <= ONE {
        raw
    } else if raw <= INFINITY {
        ONE
    } else {
        0
    }
}

/// The similarity of two lowercase forms: 1.0 where they are the same, and
/// else their Jaro-Winkler similarity, within the unit interval.
pub open spec fn folded_similarity(x: Seq<char>, y: Seq<char>) -> u64 {
    if x == y {
        ONE
    } else {
        unit_score(jaro_winkler(x, y))
    }
}

/// The similarity of two identifiers, letter case set aside: that of their
/// lowercase forms.
pub open spec fn similarity(a: Seq<char>, b: Seq<char>) -> u64 {
    folded_similarity(lowercase(a), lowercase(b))
}

/// Identifiers that are the same up to letter case are as similar as can
/// be: each identifier to itself, and to each of its other spellings.
pub proof fn lemma_similarity_of_same(a: Seq<char>, b: Seq<char>)
    requires
        same_ignoring_case(a, b),
    ensures
        similarity(a, b) == ONE,
        similarity(a, a) == ONE,
{
}

/// Every similarity lies in the unit interval.
pub proof fn lemma_similarity_bounded(a: Seq<char>, b: Seq<char>)
    ensures
        similarity(a, b) <= ONE,
{
}

/// Scores two strings that are in lowercase form already.
pub(crate) fn folded_score(x: &str, y: &str) -> (bits: u64)
    ensures
        bits == folded_similarity(x@, y@),
        bits <= ONE,
{
    if same_text(x, y) {
        ONE
    } else {
        normalize_score(jaro_winkler_bits(x, y))
    }
}

/// Scores how similar `a` and `b` are, as the bit pattern of a double from
/// 0.0 to 1.0. Identifiers that differ in letter case only score 1.0.
pub fn score(a: &str, b: &str) -> (bits: u64)
    ensures
        bits == similarity(a@, b@),
        bits <= ONE,
        same_ignoring_case(a@, b@) ==> bits == ONE,
{
    let x = a.to_lowercase();
    let y = b.to_lowercase();
    folded_score(x.as_str(), y.as_str())
}

} // verus!
