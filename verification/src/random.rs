//! The randomizer: a fixed-length suffix of characters drawn uniformly
//! and independently from the lowercase alphanumeric alphabet.

use vstd::prelude::*;

use crate::model::is_word_char;
use crate::model::word_seq;
use crate::normalize::push_all;

verus! {

/// What holds of a randomized slug `r` built from the non-randomized slug
/// `base`: the suffix holds exactly `n` characters of the lowercase
/// alphanumeric alphabet, preceded by one occurrence of `sep`; an empty
/// base leaves the suffix alone, so no slug begins with the separator.
pub open spec fn rand_slug_ok(r: Seq<char>, base: Seq<char>, sep: Seq<char>, n: nat) -> bool {
    if base.len() == 0 {
        r.len() == n && word_seq(r)
    } else {
        &&& r.len() == base.len() + sep.len() + n
        &&& r.take((base.len() + sep.len()) as int) == base + sep
        &&& word_seq(r.skip((base.len() + sep.len()) as int))
    }
}

/// Relies on rand::random_range: a value drawn uniformly from the given
/// nonempty range by the thread-local generator, so always below the
/// bound. Nothing more can be said of a random value.
#[verifier::external_body]
fn random_below(bound: usize) -> (r: usize)
    requires
        1 <= bound,
    ensures
        r < bound,
{
    rand::random_range(0..bound)
}

/// The `k`-th character of the suffix alphabet: `a`..`z` for `k` below
/// 26, then `0`..`9`. The mapping is one-to-one, so a uniform index
/// gives a uniform character.
pub fn alphabet_char(k: usize) -> (c: char)
    requires
        k < 36,
    ensures
        is_word_char(c),
        c as u32 == if k < 26 {
            97 + k
        } else {
            48 + (k - 26)
        },
{
    if k < 26 {
        ((97 + k) as u8) as char
    } else {
        ((48 + (k - 26)) as u8) as char
    }
}

/// Draws `n` characters independently and uniformly from the lowercase
/// alphanumeric alphabet.
pub fn random_suffix(n: usize) -> (r: Vec<char>)
    ensures
        r@.len() == n,
        forall|i: int| 0 <= i < r@.len() ==> is_word_char(#[trigger] r@[i]),
{
    let mut out: Vec<char> = Vec::new();
    let mut i: usize = 0;
    while i < n
        invariant
            i <= n,
            out@.len() == i,
            forall|j: int| 0 <= j < out@.len() ==> is_word_char(#[trigger] out@[j]),
        decreases n - i,
    {
        let k = random_below(36);
        let c = alphabet_char(k);
        out.push(c);
        i += 1;
    }
    out
}

/// Appends a fresh random suffix of `n` alphanumeric characters to
/// `base`, separated by one occurrence of `sep`. An empty base takes the
/// suffix alone, without a leading separator.
pub fn append_random(base: Vec<char>, sep: &Vec<char>, n: usize) -> (r: Vec<char>)
    ensures
        rand_slug_ok(r@, base@, sep@, n as nat),
{
    let ghost base0 = base@;
    let suffix = random_suffix(n);
    if base.len() == 0 {
        suffix
    } else {
        let mut out = base;
        push_all(&mut out, sep);
        push_all(&mut out, &suffix);
        proof {
            let cut = base0.len() + sep@.len();
            assert(out@ == base0 + sep@ + suffix@);
            assert(out@.take(cut as int) =~= base0 + sep@);
            assert(out@.skip(cut as int) =~= suffix@);
        }
        out
    }
}

} // verus!
