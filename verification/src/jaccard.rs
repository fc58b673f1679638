//! Alphabet overlap: the two texts are reduced to their sets of distinct
//! code points, and similarity is the ratio of the intersection's size to
//! the union's size. Only the integer set sizes are computed here; callers
//! form the ratio.

use vstd::prelude::*;
use vstd::seq_lib::lemma_seq_contains_after_push;
use vstd::set::group_set_axioms;
use vstd::set_lib::lemma_len_subset;
use crate::text::char_vec;
use crate::TwoWayCmp;

verus! {

/// The set of distinct code points of a text; duplicates collapse and
/// order is irrelevant.
pub open spec fn alphabet(s: Seq<char>) -> Set<char> {
    s.to_set()
}

/// Number of code points that occur in both texts.
pub open spec fn jaccard_intersection(a: Seq<char>, b: Seq<char>) -> nat {
    alphabet(a).intersect(alphabet(b)).len()
}

/// Number of code points that occur in at least one of the texts.
pub open spec fn jaccard_union(a: Seq<char>, b: Seq<char>) -> nat {
    alphabet(a).union(alphabet(b)).len()
}

/// A text's alphabet is a finite set.
proof fn lemma_alphabet_finite(s: Seq<char>)
    ensures
        alphabet(s).finite(),
{
    vstd::seq_lib::seq_to_set_is_finite(s);
}

/// A text shares its whole alphabet with itself.
pub proof fn lemma_jaccard_identity(a: Seq<char>)
    ensures
        jaccard_intersection(a, a) == jaccard_union(a, a),
{
    assert(alphabet(a).intersect(alphabet(a)) =~= alphabet(a).union(alphabet(a)));
}

/// Intersection and union sizes do not depend on the order of the texts.
pub proof fn lemma_jaccard_symmetric(a: Seq<char>, b: Seq<char>)
    ensures
        jaccard_intersection(a, b) == jaccard_intersection(b, a),
        jaccard_union(a, b) == jaccard_union(b, a),
{
    assert(alphabet(a).intersect(alphabet(b)) =~= alphabet(b).intersect(alphabet(a)));
    assert(alphabet(a).union(alphabet(b)) =~= alphabet(b).union(alphabet(a)));
}

/// The intersection is never larger than the union, and the union is empty
/// exactly when both texts are; so the ratio, whenever defined, lies
/// between zero and one.
pub proof fn lemma_jaccard_bounds(a: Seq<char>, b: Seq<char>)
    ensures
        jaccard_intersection(a, b) <= jaccard_union(a, b),
        jaccard_union(a, b) == 0 <==> a.len() == 0 && b.len() == 0,
{
    broadcast use group_set_axioms;

    lemma_alphabet_finite(a);
    lemma_alphabet_finite(b);
    let inter = alphabet(a).intersect(alphabet(b));
    let uni = alphabet(a).union(alphabet(b));
    assert(inter.subset_of(uni));
    lemma_len_subset(inter, uni);
    a.lemma_cardinality_of_empty_set_is_0();
    b.lemma_cardinality_of_empty_set_is_0();
    if a.len() == 0 && b.len() == 0 {
        assert(uni =~= Set::<char>::empty());
    }
    if uni.len() == 0 {
        uni.lemma_len0_is_empty();
        if a.len() != 0 {
            assert(alphabet(a).contains(a[0]));
            assert(uni.contains(a[0]));
        }
        if b.len() != 0 {
            assert(alphabet(b).contains(b[0]));
            assert(uni.contains(b[0]));
        }
    }
}

/// Taking one more code point of a text inserts it into the prefix's
/// alphabet.
proof fn lemma_take_next_alphabet(s: Seq<char>, i: int)
    requires
        0 <= i < s.len(),
    ensures
        s.take(i + 1).to_set() == s.take(i).to_set().insert(s[i]),
{
    assert(s.take(i + 1) =~= s.take(i) + seq![s[i]]);
    Seq::<char>::lemma_to_set_insert_commutes(s.take(i), s[i]);
}

/// Pushing a fresh element keeps a sequence duplicate-free.
proof fn lemma_push_keeps_no_duplicates(v: Seq<char>, c: char)
    requires
        v.no_duplicates(),
        !v.contains(c),
    ensures
        v.push(c).no_duplicates(),
{
    let w = v.push(c);
    assert forall|p: int, q: int|
        0 <= p < w.len() && 0 <= q < w.len() && p != q implies w[p] != w[q] by {
        if q == v.len() && p < v.len() {
            if v[p] == c {
                assert(v.contains(c));
            }
        } else if p == v.len() && q < v.len() {
            if v[q] == c {
                assert(v.contains(c));
            }
        }
    }
}

/// Number of entries of `v` that lie in the set `s`.
spec fn count_members(v: Seq<char>, s: Set<char>) -> nat
    decreases v.len(),
{
    if v.len() == 0 {
        0
    } else {
        count_members(v.drop_last(), s) + (if s.contains(v.last()) {
            1nat
        } else {
            0nat
        })
    }
}

/// On a duplicate-free sequence, counting the entries that lie in `s` is
/// sizing the intersection of the sequence's alphabet with `s`.
proof fn lemma_count_members_is_intersection(v: Seq<char>, s: Set<char>)
    requires
        v.no_duplicates(),
        s.finite(),
    ensures
        count_members(v, s) == v.to_set().intersect(s).len(),
    decreases v.len(),
{
    broadcast use group_set_axioms;

    if v.len() == 0 {
        assert(v.to_set().intersect(s) =~= Set::<char>::empty());
    } else {
        let w = v.drop_last();
        let x = v.last();
        assert(w.no_duplicates());
        lemma_count_members_is_intersection(w, s);
        vstd::seq_lib::seq_to_set_is_finite(w);
        assert(v =~= w + seq![x]);
        Seq::<char>::lemma_to_set_insert_commutes(w, x);
        assert(v.to_set() == w.to_set().insert(x));
        if w.contains(x) {
            let k = choose|k: int| 0 <= k < w.len() && w[k] == x;
            assert(v[k] == v[v.len() - 1]);
            assert(false);
        }
        assert(!w.to_set().contains(x));
        if s.contains(x) {
            assert(v.to_set().intersect(s) =~= w.to_set().intersect(s).insert(x));
        } else {
            assert(v.to_set().intersect(s) =~= w.to_set().intersect(s));
        }
    }
}

/// True exactly when `v` holds `c`.
fn vec_contains_char(v: &Vec<char>, c: char) -> (r: bool)
    ensures
        r == v@.contains(c),
{
    let mut i: usize = 0;
    while i < v.len()
        invariant
            0 <= i <= v@.len(),
            forall|k: int| 0 <= k < i ==> v@[k] != c,
        decreases v@.len() - i,
    {
        if v[i] == c {
            return true;
        }
        i += 1;
    }
    false
}

/// Appends to `acc` every code point of `src` not already present, so that
/// `acc` stays duplicate-free while its alphabet absorbs `src`'s.
fn add_distinct(acc: &mut Vec<char>, src: &Vec<char>)
    requires
        old(acc)@.no_duplicates(),
    ensures
        final(acc)@.no_duplicates(),
        final(acc)@.to_set() == old(acc)@.to_set().union(src@.to_set()),
{
    broadcast use group_set_axioms;
    broadcast use lemma_seq_contains_after_push;

    let mut i: usize = 0;
    while i < src.len()
        invariant
            0 <= i <= src@.len(),
            acc@.no_duplicates(),
            acc@.to_set() == old(acc)@.to_set().union(src@.take(i as int).to_set()),
        decreases src@.len() - i,
    {
        let c: char = src[i];
        let ghost pre: Seq<char> = acc@;
        if !vec_contains_char(acc, c) {
            proof {
                lemma_push_keeps_no_duplicates(pre, c);
            }
            acc.push(c);
            proof {
                assert(acc@ =~= pre + seq![c]);
                Seq::<char>::lemma_to_set_insert_commutes(pre, c);
            }
        } else {
            proof {
                assert(pre.to_set().contains(c));
            }
        }
        proof {
            lemma_take_next_alphabet(src@, i as int);
            assert(acc@.to_set() =~= old(acc)@.to_set().union(
                src@.take(i as int).to_set().insert(c),
            ));
        }
        i += 1;
    }
    proof {
        assert(src@.take(src@.len() as int) =~= src@);
    }
}

/// Compares the distinct code-point sets of two texts; see
/// [`jaccard_intersection`] and [`jaccard_union`].
pub struct Jaccard {
    a: String,
    b: String,
}

impl TwoWayCmp for Jaccard {
    closed spec fn left(&self) -> Seq<char> {
        self.a@
    }

    closed spec fn right(&self) -> Seq<char> {
        self.b@
    }

    fn new(a: &str, b: &str) -> (c: Self) {
        Jaccard { a: a.to_owned(), b: b.to_owned() }
    }
}

impl Jaccard {
    /// Returns the sizes of the intersection and of the union of the two
    /// texts' alphabets, in that order. The similarity ratio is their
    /// quotient; with two empty texts the union is empty and no ratio is
    /// defined, so callers wanting one should treat that case as maximal
    /// similarity.
    pub fn counts(&self) -> (r: (usize, usize))
        ensures
            r.0 == jaccard_intersection(self.left(), self.right()),
            r.1 == jaccard_union(self.left(), self.right()),
            r.0 <= r.1,
            r.1 == 0 <==> self.left().len() == 0 && self.right().len() == 0,
    {
        broadcast use group_set_axioms;

        let ca: Vec<char> = char_vec(self.a.as_str());
        let cb: Vec<char> = char_vec(self.b.as_str());
        let mut va: Vec<char> = Vec::new();
        add_distinct(&mut va, &ca);
        let mut vb: Vec<char> = Vec::new();
        add_distinct(&mut vb, &cb);
        let mut vu: Vec<char> = Vec::new();
        add_distinct(&mut vu, &ca);
        add_distinct(&mut vu, &cb);
        proof {
            assert(va@.to_set() =~= alphabet(self.left()));
            assert(vb@.to_set() =~= alphabet(self.right()));
            assert(vu@.to_set() =~= alphabet(self.left()).union(alphabet(self.right())));
            vu@.unique_seq_to_set();
        }
        let union_size: usize = vu.len();

        let mut inter: usize = 0;
        let mut i: usize = 0;
        while i < va.len()
            invariant
                0 <= i <= va@.len(),
                inter <= i,
                vb@.to_set() == alphabet(self.right()),
                inter == count_members(va@.take(i as int), vb@.to_set()),
            decreases va@.len() - i,
        {
            let c: char = va[i];
            let hit: bool = vec_contains_char(&vb, c);
            proof {
                assert(va@.take(i as int + 1).drop_last() =~= va@.take(i as int));
                assert(va@.take(i as int + 1).last() == va@[i as int]);
                if hit {
                    assert(vb@.to_set().contains(c));
                } else {
                    if vb@.to_set().contains(c) {
                        assert(vb@.contains(c));
                    }
                }
            }
            if hit {
                inter = inter + 1;
            }
            i += 1;
        }
        proof {
            assert(va@.take(va@.len() as int) =~= va@);
            lemma_alphabet_finite(self.right());
            lemma_count_members_is_intersection(va@, vb@.to_set());
            assert(va@.to_set().intersect(vb@.to_set()) =~= alphabet(self.left()).intersect(
                alphabet(self.right()),
            ));
            lemma_jaccard_bounds(self.left(), self.right());
        }
        (inter, union_size)
    }
}

} // verus!
