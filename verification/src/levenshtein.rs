//! Minimum edit distance: the least number of single-character insertions,
//! deletions and substitutions turning one text into the other, computed by
//! the classic dynamic-programming matrix.

use vstd::prelude::*;
use crate::text::char_vec;
use crate::TwoWayCmp;

verus! {

/// Cost of aligning code point `x` with code point `y`: free on a match,
/// one substitution otherwise.
pub open spec fn edit_cost(x: char, y: char) -> nat {
    if x == y {
        0
    } else {
        1
    }
}

/// The least of three counts.
pub open spec fn min3(x: nat, y: nat, z: nat) -> nat {
    if x <= y && x <= z {
        x
    } else if y <= z {
        y
    } else {
        z
    }
}

/// The edit distance between `a` and `b`: turning a text into the empty
/// text takes one deletion per character, and otherwise the last code
/// points are either both dropped (paying a substitution on a mismatch) or
/// one of them is covered by an insertion or a deletion.
pub open spec fn edit_distance(a: Seq<char>, b: Seq<char>) -> nat
    decreases a.len() + b.len(),
{
    if a.len() == 0 {
        b.len()
    } else if b.len() == 0 {
        a.len()
    } else {
        min3(
            edit_distance(a.drop_last(), b) + 1,
            edit_distance(a, b.drop_last()) + 1,
            edit_distance(a.drop_last(), b.drop_last()) + edit_cost(a.last(), b.last()),
        )
    }
}

/// The edit distance never exceeds the longer text's length: substitute
/// along the common length and insert or delete the rest.
pub proof fn lemma_edit_distance_le_max(a: Seq<char>, b: Seq<char>)
    ensures
        edit_distance(a, b) <= a.len() || edit_distance(a, b) <= b.len(),
        edit_distance(a, b) <= a.len() + b.len(),
    decreases a.len() + b.len(),
{
    if a.len() != 0 && b.len() != 0 {
        lemma_edit_distance_le_max(a.drop_last(), b.drop_last());
    }
}

/// The edit distance is at least the length difference: an edit changes
/// the length by at most one.
pub proof fn lemma_edit_distance_ge_diff(a: Seq<char>, b: Seq<char>)
    ensures
        edit_distance(a, b) + a.len() >= b.len(),
        edit_distance(a, b) + b.len() >= a.len(),
    decreases a.len() + b.len(),
{
    if a.len() != 0 && b.len() != 0 {
        lemma_edit_distance_ge_diff(a.drop_last(), b);
        lemma_edit_distance_ge_diff(a, b.drop_last());
        lemma_edit_distance_ge_diff(a.drop_last(), b.drop_last());
    }
}

/// Every text is at edit distance zero from itself.
pub proof fn lemma_edit_distance_identity(a: Seq<char>)
    ensures
        edit_distance(a, a) == 0,
    decreases a.len(),
{
    if a.len() != 0 {
        lemma_edit_distance_identity(a.drop_last());
    }
}

/// The edit distance is symmetric: insertions into one text are deletions
/// from the other, and substitutions swap.
pub proof fn lemma_edit_distance_symmetric(a: Seq<char>, b: Seq<char>)
    ensures
        edit_distance(a, b) == edit_distance(b, a),
    decreases a.len() + b.len(),
{
    if a.len() != 0 && b.len() != 0 {
        lemma_edit_distance_symmetric(a.drop_last(), b);
        lemma_edit_distance_symmetric(a, b.drop_last());
        lemma_edit_distance_symmetric(a.drop_last(), b.drop_last());
    }
}

/// Appending one code point to the left text costs at most one extra edit.
proof fn lemma_edit_distance_step_left(a: Seq<char>, b: Seq<char>)
    requires
        a.len() > 0,
    ensures
        edit_distance(a, b) <= edit_distance(a.drop_last(), b) + 1,
{
    if b.len() == 0 {
        assert(edit_distance(a, b) == a.len());
        assert(edit_distance(a.drop_last(), b) == a.drop_last().len());
    }
}

/// Appending one code point to the right text costs at most one extra edit.
proof fn lemma_edit_distance_step_right(a: Seq<char>, b: Seq<char>)
    requires
        b.len() > 0,
    ensures
        edit_distance(a, b) <= edit_distance(a, b.drop_last()) + 1,
{
    if a.len() == 0 {
        assert(edit_distance(a, b) == b.len());
        assert(edit_distance(a, b.drop_last()) == b.drop_last().len());
    }
}

/// Dropping the last code point of the right text costs at most one extra
/// edit as well: the two texts stay within distance one of each other.
proof fn lemma_edit_distance_drop_right(a: Seq<char>, b: Seq<char>)
    requires
        b.len() > 0,
    ensures
        edit_distance(a, b.drop_last()) <= edit_distance(a, b) + 1,
    decreases a.len() + b.len(),
{
    if a.len() == 0 {
        assert(edit_distance(a, b.drop_last()) == b.drop_last().len());
    } else if b.len() == 1 {
        assert(edit_distance(a, b.drop_last()) == a.len());
        lemma_edit_distance_ge_diff(a, b);
    } else {
        let t1 = edit_distance(a.drop_last(), b) + 1;
        let t2 = edit_distance(a, b.drop_last()) + 1;
        let t3 = edit_distance(a.drop_last(), b.drop_last()) + edit_cost(a.last(), b.last());
        assert(edit_distance(a, b) == min3(t1, t2, t3));
        lemma_edit_distance_drop_right(a.drop_last(), b);
        lemma_edit_distance_step_left(a, b.drop_last());
    }
}

/// The triangle inequality: editing `a` into `b` and then `b` into `c`
/// exhibits one way of editing `a` into `c`, so the direct distance can
/// only be smaller.
pub proof fn lemma_edit_distance_triangle(a: Seq<char>, b: Seq<char>, c: Seq<char>)
    ensures
        edit_distance(a, c) <= edit_distance(a, b) + edit_distance(b, c),
    decreases a.len() + b.len() + c.len(),
{
    if b.len() == 0 {
        lemma_edit_distance_le_max(a, c);
    } else if a.len() == 0 {
        lemma_edit_distance_ge_diff(b, c);
    } else if c.len() == 0 {
        lemma_edit_distance_ge_diff(a, b);
    } else {
        let u1 = edit_distance(b.drop_last(), c) + 1;
        let u2 = edit_distance(b, c.drop_last()) + 1;
        let u3 = edit_distance(b.drop_last(), c.drop_last()) + edit_cost(b.last(), c.last());
        assert(edit_distance(b, c) == min3(u1, u2, u3));
        if edit_distance(b, c) == u1 {
            lemma_edit_distance_triangle(a, b.drop_last(), c);
            lemma_edit_distance_drop_right(a, b);
        } else if edit_distance(b, c) == u2 {
            lemma_edit_distance_triangle(a, b, c.drop_last());
            lemma_edit_distance_step_right(a, c);
        } else {
            let t1 = edit_distance(a.drop_last(), b) + 1;
            let t2 = edit_distance(a, b.drop_last()) + 1;
            let t3 = edit_distance(a.drop_last(), b.drop_last()) + edit_cost(a.last(), b.last());
            assert(edit_distance(a, b) == min3(t1, t2, t3));
            if edit_distance(a, b) == t1 {
                lemma_edit_distance_triangle(a.drop_last(), b, c);
                lemma_edit_distance_step_left(a, c);
            } else if edit_distance(a, b) == t2 {
                lemma_edit_distance_triangle(a, b.drop_last(), c);
                lemma_edit_distance_step_right(b.drop_last(), c);
            } else {
                lemma_edit_distance_triangle(a.drop_last(), b.drop_last(), c.drop_last());
                assert(edit_distance(a, c) <= edit_distance(a.drop_last(), c.drop_last())
                    + edit_cost(a.last(), c.last()));
            }
        }
    }
}

/// The recurrence restated over prefix lengths, as the matrix cells use it:
/// dropping the last code point of a prefix is taking one fewer.
proof fn lemma_edit_distance_take(a: Seq<char>, b: Seq<char>, j: int, i: int)
    requires
        1 <= j <= a.len(),
        1 <= i <= b.len(),
    ensures
        edit_distance(a.take(j), b.take(i)) == min3(
            edit_distance(a.take(j - 1), b.take(i)) + 1,
            edit_distance(a.take(j), b.take(i - 1)) + 1,
            edit_distance(a.take(j - 1), b.take(i - 1)) + edit_cost(a[j - 1], b[i - 1]),
        ),
{
    let x = a.take(j);
    let y = b.take(i);
    assert(x.drop_last() =~= a.take(j - 1));
    assert(y.drop_last() =~= b.take(i - 1));
    assert(x.last() == a[j - 1]);
    assert(y.last() == b[i - 1]);
}

/// Compares two texts by minimum edit count; see [`edit_distance`].
pub struct Levenshtein {
    a: String,
    b: String,
}

impl TwoWayCmp for Levenshtein {
    closed spec fn left(&self) -> Seq<char> {
        self.a@
    }

    closed spec fn right(&self) -> Seq<char> {
        self.b@
    }

    fn new(a: &str, b: &str) -> (c: Self) {
        Levenshtein { a: a.to_owned(), b: b.to_owned() }
    }
}

impl Levenshtein {
    /// Builds a comparator holding owned copies of `a` and `b`.
    pub fn new(a: &str, b: &str) -> (c: Levenshtein)
        ensures
            c.left() == a@,
            c.right() == b@,
    {
        Levenshtein { a: a.to_owned(), b: b.to_owned() }
    }

    /// Builds the full dynamic-programming score matrix: the cell in row
    /// `i`, column `j` holds the edit distance between the first `j` code
    /// points of the left text and the first `i` code points of the right
    /// text, so row 0 and column 0 are the base cases and the last cell is
    /// the score. Exposed for diagnostic inspection; scoring only reads the
    /// last cell.
    ///
    /// Scores are counted in a `u32`, so each input must stay below
    /// `u32::MAX` code points.
    pub fn score_matrix(&self) -> (m: Vec<Vec<u32>>)
        requires
            self.left().len() < u32::MAX,
            self.right().len() < u32::MAX,
        ensures
            m@.len() == self.right().len() + 1,
            forall|i: int| 0 <= i < m@.len() ==> (#[trigger] m@[i])@.len() == self.left().len() + 1,
            forall|i: int, j: int|
                0 <= i <= self.right().len() && 0 <= j <= self.left().len() ==> (#[trigger] m@[i]@[j])
                    == edit_distance(self.left().take(j), self.right().take(i)),
    {
        let ca: Vec<char> = char_vec(self.a.as_str());
        let cb: Vec<char> = char_vec(self.b.as_str());
        let len_a: usize = ca.len();
        let len_b: usize = cb.len();
        let mut m: Vec<Vec<u32>> = Vec::new();

        let mut row0: Vec<u32> = Vec::new();
        let mut j: usize = 0;
        while j <= len_a
            invariant
                ca@ == self.left(),
                len_a == ca@.len() < u32::MAX,
                0 <= j <= len_a + 1,
                row0@.len() == j,
                forall|k: int|
                    0 <= k < j ==> (#[trigger] row0@[k]) == edit_distance(
                        self.left().take(k),
                        self.right().take(0),
                    ),
            decreases len_a + 1 - j,
        {
            proof {
                assert(self.right().take(0) =~= Seq::<char>::empty());
                assert(self.left().take(j as int).len() == j);
            }
            row0.push(j as u32);
            j += 1;
        }
        m.push(row0);

        let mut i: usize = 1;
        while i <= len_b
            invariant
                ca@ == self.left(),
                cb@ == self.right(),
                len_a == ca@.len() < u32::MAX,
                len_b == cb@.len() < u32::MAX,
                1 <= i <= len_b + 1,
                m@.len() == i,
                forall|r: int| 0 <= r < i ==> (#[trigger] m@[r])@.len() == len_a + 1,
                forall|r: int, c: int|
                    0 <= r < i && 0 <= c <= len_a ==> (#[trigger] m@[r]@[c]) == edit_distance(
                        self.left().take(c),
                        self.right().take(r),
                    ),
            decreases len_b + 1 - i,
        {
            let mut row: Vec<u32> = Vec::new();
            proof {
                assert(self.left().take(0) =~= Seq::<char>::empty());
                assert(self.right().take(i as int).len() == i);
            }
            row.push(i as u32);
            let mut jj: usize = 1;
            while jj <= len_a
                invariant
                    ca@ == self.left(),
                    cb@ == self.right(),
                    len_a == ca@.len() < u32::MAX,
                    len_b == cb@.len() < u32::MAX,
                    1 <= i <= len_b,
                    m@.len() == i,
                    forall|r: int| 0 <= r < i ==> (#[trigger] m@[r])@.len() == len_a + 1,
                    forall|r: int, c: int|
                        0 <= r < i && 0 <= c <= len_a ==> (#[trigger] m@[r]@[c]) == edit_distance(
                            self.left().take(c),
                            self.right().take(r),
                        ),
                    1 <= jj <= len_a + 1,
                    row@.len() == jj,
                    forall|c: int|
                        0 <= c < jj ==> (#[trigger] row@[c]) == edit_distance(
                            self.left().take(c),
                            self.right().take(i as int),
                        ),
                decreases len_a + 1 - jj,
            {
                let up: u32 = m[i - 1][jj];
                let left_cell: u32 = row[jj - 1];
                let diag: u32 = m[i - 1][jj - 1];
                let cost: u32 = if ca[jj - 1] == cb[i - 1] {
                    0
                } else {
                    1
                };
                proof {
                    lemma_edit_distance_le_max(
                        self.left().take(jj as int),
                        self.right().take(i as int - 1),
                    );
                    lemma_edit_distance_le_max(
                        self.left().take(jj as int - 1),
                        self.right().take(i as int),
                    );
                    lemma_edit_distance_le_max(
                        self.left().take(jj as int - 1),
                        self.right().take(i as int - 1),
                    );
                    lemma_edit_distance_take(self.left(), self.right(), jj as int, i as int);
                }
                let d_up: u32 = up + 1;
                let d_left: u32 = left_cell + 1;
                let d_diag: u32 = diag + cost;
                let best: u32 = if d_left <= d_up && d_left <= d_diag {
                    d_left
                } else if d_up <= d_diag {
                    d_up
                } else {
                    d_diag
                };
                row.push(best);
                jj += 1;
            }
            m.push(row);
            i += 1;
        }
        m
    }

    /// Returns the edit distance between the two held texts: the last cell
    /// of the score matrix.
    ///
    /// Scores are counted in a `u32`, so each input must stay below
    /// `u32::MAX` code points; the distance itself never exceeds the longer
    /// input's length.
    pub fn cmp(&self) -> (d: u32)
        requires
            self.left().len() < u32::MAX,
            self.right().len() < u32::MAX,
        ensures
            d == edit_distance(self.left(), self.right()),
    {
        let m = self.score_matrix();
        let len_b: usize = m.len() - 1;
        let len_a: usize = m[0].len() - 1;
        let d: u32 = m[len_b][len_a];
        proof {
            assert(self.left().take(self.left().len() as int) =~= self.left());
            assert(self.right().take(self.right().len() as int) =~= self.right());
        }
        d
    }
}

} // verus!
