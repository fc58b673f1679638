use stringsim::{Hamming, Levenshtein};

#[test]
fn test_identical() {
    let h_dist = Hamming::new("abc", "abc").cmp();
    let l_dist = Levenshtein::new("abc", "abc").cmp();
    assert_eq!(h_dist, 0);
    assert_eq!(l_dist, 0);
}

#[test]
fn test_onechar_diff() {
    let h_dist = Hamming::new("abc", "abe").cmp();
    let l_dist = Levenshtein::new("abc", "abe").cmp();
    assert_eq!(h_dist, 1);
    assert_eq!(l_dist, 1);
}

#[test]
fn test_whitespace_diff() {
    let h_dist = Hamming::new("abc ", "abc").cmp();
    let l_dist = Levenshtein::new("abc ", "abc").cmp();
    assert_eq!(h_dist, 1);
    assert_eq!(l_dist, 1);
}

#[test]
fn test_whitespace_char_diff() {
    let h_dist = Hamming::new("abc d", "abc").cmp();
    let l_dist = Levenshtein::new("abc d", "abc").cmp();
    assert_eq!(h_dist, 2);
    assert_eq!(l_dist, 2);
}

#[test]
fn test_whitespace_only() {
    let h_dist = Hamming::new(" ", "").cmp();
    let l_dist = Levenshtein::new(" ", "").cmp();
    assert_eq!(h_dist, 1);
    assert_eq!(l_dist, 1);
}
