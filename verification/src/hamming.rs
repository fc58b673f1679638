//! Positional mismatch count, extended to unequal lengths: every character
//! beyond the shorter input's length counts as one mismatch.

use vstd::prelude::*;
use crate::text::char_vec;
use crate::TwoWayCmp;

verus! {

/// Number of positions `p` with `0 <= p < n` at which `a` and `b` differ.
pub open spec fn mismatch_count(a: Seq<char>, b: Seq<char>, n: int) -> nat
    decreases n,
{
    if n <= 0 {
        0
    } else {
        mismatch_count(a, b, n - 1) + (if a[n - 1] == b[n - 1] {
            0nat
        } else {
            1nat
        })
    }
}

/// The generalized Hamming distance: the length difference (each extra
/// character is a guaranteed mismatch) plus the number of positions within
/// the common length at which the code points differ.
pub open spec fn hamming_distance(a: Seq<char>, b: Seq<char>) -> nat {
    if a.len() <= b.len() {
        (b.len() - a.len()) as nat + mismatch_count(a, b, a.len() as int)
    } else {
        (a.len() - b.len()) as nat + mismatch_count(a, b, b.len() as int)
    }
}

/// There are at most `n` mismatches among the first `n` positions.
proof fn lemma_mismatch_count_le(a: Seq<char>, b: Seq<char>, n: int)
    requires
        0 <= n,
    ensures
        mismatch_count(a, b, n) <= n,
    decreases n,
{
    if n > 0 {
        lemma_mismatch_count_le(a, b, n - 1);
    }
}

/// A text never mismatches itself at any position.
proof fn lemma_mismatch_count_self(a: Seq<char>, n: int)
    ensures
        mismatch_count(a, a, n) == 0,
    decreases n,
{
    if n > 0 {
        lemma_mismatch_count_self(a, n - 1);
    }
}

/// Mismatch counting does not depend on the order of the two texts.
proof fn lemma_mismatch_count_symmetric(a: Seq<char>, b: Seq<char>, n: int)
    ensures
        mismatch_count(a, b, n) == mismatch_count(b, a, n),
    decreases n,
{
    if n > 0 {
        lemma_mismatch_count_symmetric(a, b, n - 1);
    }
}

/// Every text is at Hamming distance zero from itself.
pub proof fn lemma_hamming_identity(a: Seq<char>)
    ensures
        hamming_distance(a, a) == 0,
{
    lemma_mismatch_count_self(a, a.len() as int);
}

/// The Hamming distance is symmetric in its two texts.
pub proof fn lemma_hamming_symmetric(a: Seq<char>, b: Seq<char>)
    ensures
        hamming_distance(a, b) == hamming_distance(b, a),
{
    if a.len() <= b.len() {
        lemma_mismatch_count_symmetric(a, b, a.len() as int);
    } else {
        lemma_mismatch_count_symmetric(a, b, b.len() as int);
    }
}

/// Compares two texts by position; see [`hamming_distance`].
pub struct Hamming {
    a: String,
    b: String,
}

impl TwoWayCmp for Hamming {
    closed spec fn left(&self) -> Seq<char> {
        self.a@
    }

    closed spec fn right(&self) -> Seq<char> {
        self.b@
    }

    fn new(a: &str, b: &str) -> (c: Self) {
        Hamming { a: a.to_owned(), b: b.to_owned() }
    }
}

impl Hamming {
    /// Builds a comparator holding owned copies of `a` and `b`.
    pub fn new(a: &str, b: &str) -> (c: Hamming)
        ensures
            c.left() == a@,
            c.right() == b@,
    {
        Hamming { a: a.to_owned(), b: b.to_owned() }
    }

    /// Returns the generalized Hamming distance between the two held texts.
    ///
    /// Scores are counted in a `u32`, so each input may hold at most
    /// `u32::MAX` code points; the distance itself never exceeds the longer
    /// input's length.
    pub fn cmp(&self) -> (d: u32)
        requires
            self.left().len() <= u32::MAX,
            self.right().len() <= u32::MAX,
        ensures
            d == hamming_distance(self.left(), self.right()),
    {
        let ca: Vec<char> = char_vec(self.a.as_str());
        let cb: Vec<char> = char_vec(self.b.as_str());
        let len_a: usize = ca.len();
        let len_b: usize = cb.len();
        let len_short: usize = if len_a <= len_b {
            len_a
        } else {
            len_b
        };
        let mut distance: u32 = if len_a <= len_b {
            (len_b - len_a) as u32
        } else {
            (len_a - len_b) as u32
        };
        let ghost penalty: nat = distance as nat;
        let mut i: usize = 0;
        while i < len_short
            invariant
                ca@ == self.left(),
                cb@ == self.right(),
                len_a == ca@.len(),
                len_b == cb@.len(),
                len_short == if len_a <= len_b { len_a as int } else { len_b as int },
                penalty + len_short <= u32::MAX,
                0 <= i <= len_short,
                distance == penalty + mismatch_count(ca@, cb@, i as int),
            decreases len_short - i,
        {
            proof {
                lemma_mismatch_count_le(ca@, cb@, i as int);
            }
            if ca[i] != cb[i] {
                distance = distance + 1;
            }
            i += 1;
        }
        distance
    }
}

} // verus!
