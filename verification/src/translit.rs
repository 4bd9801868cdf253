//! The transliterator: maps arbitrary Unicode text to an ASCII
//! approximation, through the `deunicode` crate.

use vstd::prelude::*;

use crate::model::ascii_seq;
use crate::model::below_del_seq;

verus! {

/// The ASCII transliteration that `deunicode` gives a character
/// sequence, with unmapped characters dropped. It depends on the
/// characters alone.
pub uninterp spec fn translit_of(s: Seq<char>) -> Seq<char>;

/// Relies on deunicode::deunicode_with_tofu with an empty placeholder:
/// unmapped characters are dropped. Its mapping tables hold no byte
/// above the ASCII range, so the result is ASCII; the result depends on
/// the input characters alone; and its fast path returns a string
/// unchanged while every byte lies strictly below the DEL character.
#[verifier::external_body]
pub(crate) fn transliterate_chars(s: &str) -> (r: Vec<char>)
    ensures
        r@ == translit_of(s@),
        ascii_seq(r@),
        below_del_seq(s@) ==> r@ == s@,
{
    deunicode::deunicode_with_tofu(s, "").chars().collect()
}

} // verus!
