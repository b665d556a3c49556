use pereprava::names::{names_eq, names_eq_ci};
use unicode_normalization::UnicodeNormalization;

#[test]
fn nfd_matches_nfc() {
    let word = "Внутренний общий накопитель";
    let decomp: String = word.nfd().collect();
    assert_ne!(word, decomp, "fixture must actually be decomposed");
    assert!(names_eq(word, &decomp));
    assert!(names_eq_ci(&word.to_uppercase(), &decomp));
    assert!(!names_eq("foo", "bar"));
}

#[test]
fn ascii_fast_path_unchanged() {
    assert!(names_eq("DCIM", "DCIM"));
    assert!(names_eq_ci("dcim", "DCIM"));
}

#[test]
fn case_matters_unless_ignored() {
    assert!(!names_eq("dcim", "DCIM"));
    assert!(!names_eq_ci("dcim", "DCIM2"));
    assert!(names_eq_ci("ÄRGER", "ärger"));
}
