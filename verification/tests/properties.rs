use stringsim::{Hamming, Jaccard, Levenshtein, TwoWayCmp};

fn jaccard_ratio(a: &str, b: &str) -> f32 {
    let j: Jaccard = Jaccard::new(a, b);
    let (i, u) = j.counts();
    assert!(i <= u);
    i as f32 / u as f32
}

#[test]
fn test_identity_all_metrics() {
    assert_eq!(Hamming::new("similar", "similar").cmp(), 0);
    assert_eq!(Levenshtein::new("similar", "similar").cmp(), 0);
    assert_eq!(jaccard_ratio("similar", "similar"), 1.0);
}

#[test]
fn test_symmetry_all_metrics() {
    assert_eq!(
        Hamming::new("flaw", "lawn").cmp(),
        Hamming::new("lawn", "flaw").cmp()
    );
    assert_eq!(
        Levenshtein::new("flaw", "lawn").cmp(),
        Levenshtein::new("lawn", "flaw").cmp()
    );
    assert_eq!(jaccard_ratio("flaw", "lawn"), jaccard_ratio("lawn", "flaw"));
}

#[test]
fn test_levenshtein_known_distance() {
    assert_eq!(Levenshtein::new("kitten", "sitting").cmp(), 3);
}

#[test]
fn test_levenshtein_triangle_instance() {
    let ac = Levenshtein::new("kitten", "sitting").cmp();
    let ab = Levenshtein::new("kitten", "mitten").cmp();
    let bc = Levenshtein::new("mitten", "sitting").cmp();
    assert!(ac <= ab + bc);
}

#[test]
fn test_empty_inputs() {
    assert_eq!(Hamming::new("", "").cmp(), 0);
    assert_eq!(Levenshtein::new("", "").cmp(), 0);
    assert_eq!(Hamming::new("", "word").cmp(), 4);
    assert_eq!(Levenshtein::new("word", "").cmp(), 4);
}

#[test]
fn test_multibyte_code_points() {
    // Distances count code points, not bytes: each of these characters is
    // more than one byte long in UTF-8 but one position in the comparison.
    assert_eq!(Hamming::new("\u{e9}t\u{e9}", "\u{e9}t\u{e8}").cmp(), 1);
    assert_eq!(Levenshtein::new("\u{e9}t\u{e9}", "\u{e9}t\u{e8}").cmp(), 1);
    assert_eq!(Hamming::new("\u{4e2d}\u{6587}", "").cmp(), 2);
    assert_eq!(Levenshtein::new("", "\u{4e2d}\u{6587}").cmp(), 2);
}

#[test]
fn test_levenshtein_score_matrix() {
    let l = Levenshtein::new("abc", "ab").cmp();
    let m = Levenshtein::new("abc", "ab").score_matrix();
    // One row per right-text prefix, one column per left-text prefix.
    assert_eq!(m.len(), 3);
    for row in &m {
        assert_eq!(row.len(), 4);
    }
    // Row 0 and column 0 are the base cases.
    assert_eq!(m[0], vec![0, 1, 2, 3]);
    assert_eq!(m[1][0], 1);
    assert_eq!(m[2][0], 2);
    // The last cell is the score.
    assert_eq!(m[2][3], l);
    assert_eq!(l, 1);
}

#[test]
fn test_jaccard_overlap_counts() {
    let j = Jaccard::new("abc", "bcd");
    assert_eq!(j.counts(), (2, 4));
    assert_eq!(jaccard_ratio("abc", "bcd"), 0.5);
}

#[test]
fn test_jaccard_disjoint_and_bounds() {
    let r = jaccard_ratio("abc", "xyz");
    assert_eq!(r, 0.0);
    let s = jaccard_ratio("abcd", "ab");
    assert!(0.0 <= s && s <= 1.0);
    assert_eq!(s, 0.5);
}

#[test]
fn test_jaccard_repetition_invariance() {
    // Duplicate characters collapse to one set member.
    assert_eq!(Jaccard::new("aab", "ab").counts(), (2, 2));
    assert_eq!(jaccard_ratio("aab", "ab"), 1.0);
}

#[test]
fn test_jaccard_empty_inputs() {
    // Two empty texts have an empty union: no ratio is defined and the
    // counts say so explicitly.
    assert_eq!(Jaccard::new("", "").counts(), (0, 0));
    // One empty text shares nothing with a non-empty one.
    assert_eq!(Jaccard::new("", "ab").counts(), (0, 2));
    assert_eq!(jaccard_ratio("", "ab"), 0.0);
}
