//! Slug generation: lowercased, ASCII-transliterated, separator-delimited
//! strings derived from arbitrary text, with optional random suffixes.

use vstd::prelude::*;

pub mod laws;
pub mod model;
pub mod normalize;
pub mod random;
pub mod translit;

use vstd::string::StrSliceExecFns;

verus! {

use crate::laws::is_valid_slug;
use crate::laws::lemma_join_below_del;
use crate::laws::lemma_normalize_idempotent;
use crate::laws::slug_form;
use crate::model::below_del_seq;
use crate::model::join_sep;
use crate::model::normalize_spec;
use crate::normalize::normalize;
use crate::random::append_random;
use crate::random::rand_slug_ok;
use crate::translit::translit_of;
use crate::translit::transliterate_chars;

/// The separator used when the caller names none.
pub open spec fn default_sep() -> Seq<char> {
    seq!['-']
}

/// The non-randomized slug of `text` with separator `sep`: transliterate,
/// fold the case, and join the maximal word runs with `sep`.
pub open spec fn slug_spec(text: Seq<char>, sep: Seq<char>) -> Seq<char> {
    normalize_spec(translit_of(text), sep)
}

/// The one failure the pipeline knows: a randomness length that is not a
/// non-negative count.
#[derive(Clone, Copy, Debug, PartialEq, Eq, Structural)]
pub enum SlugError {
    InvalidLength,
}

impl SlugError {
    /// A short description of the error.
    pub fn message(&self) -> (r: &'static str)
        ensures
            r@ == "randomness length must be a non-negative count"@,
    {
        "randomness length must be a non-negative count"
    }
}

/// The characters of `s`, in order.
pub fn chars_of(s: &str) -> (r: Vec<char>)
    ensures
        r@ == s@,
{
    let n = s.unicode_len();
    let mut v: Vec<char> = Vec::new();
    let mut i: usize = 0;
    while i < n
        invariant
            i <= n,
            n == s@.len(),
            v@ == s@.take(i as int),
        decreases n - i,
    {
        let c = s.get_char(i);
        v.push(c);
        proof {
            assert(s@.take(i as int) + seq![s@[i as int]] =~= s@.take(i as int + 1));
        }
        i += 1;
    }
    proof {
        assert(s@.take(n as int) =~= s@);
    }
    v
}

/// Relies on the String implementation of FromIterator over characters:
/// collecting characters yields the string of exactly those characters,
/// in order.
#[verifier::external_body]
fn string_of(v: &Vec<char>) -> (r: String)
    ensures
        r@ == v@,
{
    v.iter().collect()
}

/// Transliterates and normalizes: the whole non-randomized pipeline, on
/// character vectors.
fn slug_chars(text: &str, sep: &Vec<char>) -> (r: Vec<char>)
    ensures
        r@ == slug_spec(text@, sep@),
        below_del_seq(text@) ==> r@ == normalize_spec(text@, sep@),
{
    let t = transliterate_chars(text);
    normalize(&t, sep)
}

/// The slug of `text` with a caller-chosen separator, inserted literally
/// between the word runs. A text that already is a valid slug for that
/// separator comes back unchanged.
pub fn slug_sep(text: &str, separator: &str) -> (r: String)
    ensures
        r@ == slug_spec(text@, separator@),
        below_del_seq(text@) ==> r@ == normalize_spec(text@, separator@),
        is_valid_slug(text@, separator@) ==> r@ == text@,
{
    let sep = chars_of(separator);
    let out = slug_chars(text, &sep);
    proof {
        if is_valid_slug(text@, separator@) {
            let ws = choose|ws: Seq<Seq<char>>|
                slug_form(ws) && (separator@.len() == 0 ==> ws.len() <= 1) && text@ == join_sep(
                    ws,
                    separator@,
                );
            lemma_join_below_del(ws, separator@);
            lemma_normalize_idempotent(ws, separator@);
        }
    }
    string_of(&out)
}

/// The slug of `text` with the default separator. A text that already is
/// a valid slug for that separator comes back unchanged.
pub fn slug(text: &str) -> (r: String)
    ensures
        r@ == slug_spec(text@, default_sep()),
        below_del_seq(text@) ==> r@ == normalize_spec(text@, default_sep()),
        is_valid_slug(text@, default_sep()) ==> r@ == text@,
{
    let r = slug_sep(text, "-");
    proof {
        reveal_strlit("-");
        assert("-"@ =~= default_sep());
    }
    r
}

/// Builds the randomized slug: the plain slug, then the separator, then
/// `n` random alphanumeric characters. An empty plain slug takes the
/// suffix alone, without a leading separator.
fn slug_rand_core(text: &str, separator: &str, n: usize) -> (r: String)
    ensures
        rand_slug_ok(r@, slug_spec(text@, separator@), separator@, n as nat),
{
    let sep = chars_of(separator);
    let base = slug_chars(text, &sep);
    let out = append_random(base, &sep, n);
    string_of(&out)
}

/// The randomized slug of `text` with the default separator and the
/// default suffix length of five characters.
pub fn slug_rand(text: &str) -> (r: String)
    ensures
        rand_slug_ok(r@, slug_spec(text@, default_sep()), default_sep(), 5),
{
    let r = slug_rand_core(text, "-", 5);
    proof {
        reveal_strlit("-");
        assert("-"@ =~= default_sep());
    }
    r
}

/// The randomized slug of `text` with a caller-chosen separator and the
/// default suffix length of five characters.
pub fn slug_rand_sep(text: &str, separator: &str) -> (r: String)
    ensures
        rand_slug_ok(r@, slug_spec(text@, separator@), separator@, 5),
{
    slug_rand_core(text, separator, 5)
}

/// The randomized slug of `text` with the default separator and a
/// caller-chosen suffix length. A negative length is rejected; a zero
/// length appends the separator and an empty suffix.
pub fn slug_rand_c(text: &str, randomness_length: i32) -> (r: Result<String, SlugError>)
    ensures
        randomness_length < 0 ==> r == Err::<String, SlugError>(SlugError::InvalidLength),
        randomness_length >= 0 ==> r is Ok && rand_slug_ok(
            (r->Ok_0)@,
            slug_spec(text@, default_sep()),
            default_sep(),
            randomness_length as nat,
        ),
{
    if randomness_length < 0 {
        Err(SlugError::InvalidLength)
    } else {
        let r = slug_rand_core(text, "-", randomness_length as usize);
        proof {
            reveal_strlit("-");
            assert("-"@ =~= default_sep());
        }
        Ok(r)
    }
}

/// The randomized slug of `text` with a caller-chosen separator and a
/// caller-chosen suffix length. A negative length is rejected; a zero
/// length appends the separator and an empty suffix.
pub fn slug_rand_sep_c(text: &str, separator: &str, randomness_length: i32) -> (r: Result<
    String,
    SlugError,
>)
    ensures
        randomness_length < 0 ==> r == Err::<String, SlugError>(SlugError::InvalidLength),
        randomness_length >= 0 ==> r is Ok && rand_slug_ok(
            (r->Ok_0)@,
            slug_spec(text@, separator@),
            separator@,
            randomness_length as nat,
        ),
{
    if randomness_length < 0 {
        Err(SlugError::InvalidLength)
    } else {
        Ok(slug_rand_core(text, separator, randomness_length as usize))
    }
}

} // verus!
