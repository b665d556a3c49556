//! Name matching that tolerates differences of Unicode normalisation.
//!
//! Phones report names in composed form (NFC), macOS composes user paths in
//! decomposed form (NFD). Comparing raw characters breaks the look-up of any
//! name beyond ASCII, so all name matching goes through this module.

use unicode_normalization::UnicodeNormalization;
use vstd::prelude::*;

use crate::text::{ascii_lower_text, eq_ignore_ascii_case, same_text};

verus! {

/// A text in Unicode Normalisation Form C.
pub uninterp spec fn nfc_of(s: Seq<char>) -> Seq<char>;

/// `unicode_normalization::UnicodeNormalization::nfc`: the characters of `s` in
/// Normalisation Form C, a function of the characters of `s` alone.
#[verifier::external_body]
fn nfc(s: &str) -> (r: String)
    ensures
        r@ == nfc_of(s@),
{
    s.nfc().collect()
}

/// A text in lower case, by the Unicode rules.
pub uninterp spec fn lowercase_of(s: Seq<char>) -> Seq<char>;

/// `str::to_lowercase`: the lower-case equivalent of `s`, a function of the
/// characters of `s` alone.
#[verifier::external_body]
pub(crate) fn lowercase(s: &str) -> (r: String)
    ensures
        r@ == lowercase_of(s@),
{
    s.to_lowercase()
}

/// Two names are the same but for their Unicode normalisation.
pub open spec fn same_name(a: Seq<char>, b: Seq<char>) -> bool {
    nfc_of(a) == nfc_of(b)
}

/// Two names are the same but for their Unicode normalisation and letter case.
pub open spec fn same_name_ci(a: Seq<char>, b: Seq<char>) -> bool {
    ascii_lower_text(a) == ascii_lower_text(b) || same_name(lowercase_of(a), lowercase_of(b))
}

/// Equality that ignores the Unicode normalisation.
#[must_use]
pub fn names_eq(a: &str, b: &str) -> (r: bool)
    ensures
        r == same_name(a@, b@),
{
    if same_text(a, b) {
        return true;
    }
    let x = nfc(a);
    let y = nfc(b);
    same_text(x.as_str(), y.as_str())
}

/// Equality that ignores letter case and the Unicode normalisation.
#[must_use]
pub fn names_eq_ci(a: &str, b: &str) -> (r: bool)
    ensures
        r == same_name_ci(a@, b@),
{
    if eq_ignore_ascii_case(a, b) {
        return true;
    }
    let x = lowercase(a);
    let y = lowercase(b);
    names_eq(x.as_str(), y.as_str())
}

/// Name equality is an equivalence: every name equals itself, the order of the
/// two sides does not matter, and names equal to the same name are equal.
pub proof fn law_same_name_is_equivalence(a: Seq<char>, b: Seq<char>, c: Seq<char>)
    ensures
        same_name(a, a),
        same_name(a, b) == same_name(b, a),
        same_name(a, b) && same_name(b, c) ==> same_name(a, c),
{
}

/// The equality without letter case holds of a name and itself, does not
/// depend on the order of the two sides, and holds of any two names that
/// differ in the case of ASCII letters alone.
pub proof fn law_same_name_ci(a: Seq<char>, b: Seq<char>)
    ensures
        same_name_ci(a, a),
        same_name_ci(a, b) == same_name_ci(b, a),
        ascii_lower_text(a) == ascii_lower_text(b) ==> same_name_ci(a, b),
{
}

} // verus!
