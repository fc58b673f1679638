//! Pairwise text similarity under three independent metrics: a positional
//! mismatch count extended to unequal lengths (Hamming), the minimum number
//! of single-character edits (Levenshtein), and the overlap ratio of the
//! character alphabets (Jaccard).
//!
//! Every comparator works on Unicode scalar values (code points), never on
//! raw bytes, so multi-byte characters count as single positions.

use vstd::prelude::*;

pub mod hamming;
pub mod jaccard;
pub mod levenshtein;
mod text;

pub use hamming::Hamming;
pub use jaccard::Jaccard;
pub use levenshtein::Levenshtein;

verus! {

/// Construction contract shared by the three comparators: each captures
/// owned copies of the two inputs at construction time and never mutates
/// them afterwards, so scoring is pure and repeatable.
pub trait TwoWayCmp: Sized {
    /// The left input, as a sequence of Unicode code points.
    spec fn left(&self) -> Seq<char>;

    /// The right input, as a sequence of Unicode code points.
    spec fn right(&self) -> Seq<char>;

    /// Builds a comparator holding owned copies of `a` and `b`.
    fn new(a: &str, b: &str) -> (c: Self)
        ensures
            c.left() == a@,
            c.right() == b@,
    ;
}

} // verus!
