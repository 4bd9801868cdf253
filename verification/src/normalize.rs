//! The normalizer: case folding, collapsing runs of non-word characters
//! into single separators, and trimming, as a verified left-to-right scan.

use vstd::prelude::*;

use crate::model::is_word_char;
use crate::model::join_sep;
use crate::model::lemma_norm_rec_words;
use crate::model::lower_char;
use crate::model::lower_seq;
use crate::model::norm_rec;
use crate::model::normalize_spec;
use crate::model::words_of;

verus! {

/// ASCII case folding of one character.
pub fn lower_exec(c: char) -> (r: char)
    ensures
        r == lower_char(c),
{
    let u = c as u32;
    if 65 <= u && u <= 90 {
        ((u + 32) as u8) as char
    } else {
        c
    }
}

/// Whether `c` is an ASCII lowercase letter or digit.
pub fn is_word_exec(c: char) -> (b: bool)
    ensures
        b == is_word_char(c),
{
    let u = c as u32;
    (97 <= u && u <= 122) || (48 <= u && u <= 57)
}

/// Appends all characters of `piece` to `out`, in order.
pub fn push_all(out: &mut Vec<char>, piece: &Vec<char>)
    ensures
        final(out)@ == old(out)@ + piece@,
{
    let mut j: usize = 0;
    while j < piece.len()
        invariant
            j <= piece@.len(),
            out@ == old(out)@ + piece@.take(j as int),
        decreases piece@.len() - j,
    {
        let ghost out0 = out@;
        out.push(piece[j]);
        proof {
            assert(piece@.take(j as int) + seq![piece@[j as int]] =~= piece@.take(j as int + 1));
            assert(old(out)@ + piece@.take(j as int) + seq![piece@[j as int]] =~= old(out)@
                + piece@.take(j as int + 1));
        }
        j += 1;
    }
    proof {
        assert(piece@.take(piece@.len() as int) =~= piece@);
    }
}

/// Normalizes `text` with separator `sep`: folds the case, replaces every
/// maximal run of non-word characters by one occurrence of `sep`, and
/// keeps no leading or trailing separator. With an empty `sep` the word
/// runs are simply concatenated.
pub fn normalize(text: &Vec<char>, sep: &Vec<char>) -> (r: Vec<char>)
    ensures
        r@ == normalize_spec(text@, sep@),
{
    let ghost l = lower_seq(text@);
    let mut out: Vec<char> = Vec::new();
    let mut started = false;
    let mut pending = false;
    let mut i: usize = 0;
    proof {
        assert(l.skip(0) =~= l);
        assert(Seq::<char>::empty() + norm_rec(l, sep@, false, false) =~= norm_rec(
            l,
            sep@,
            false,
            false,
        ));
    }
    while i < text.len()
        invariant
            i <= text@.len(),
            l == lower_seq(text@),
            l.len() == text@.len(),
            pending ==> started,
            out@ + norm_rec(l.skip(i as int), sep@, started, pending) == norm_rec(
                l,
                sep@,
                false,
                false,
            ),
        decreases text@.len() - i,
    {
        let c = lower_exec(text[i]);
        let ghost tail = l.skip(i as int);
        proof {
            assert(tail[0] == l[i as int]);
            assert(c == tail[0]);
            assert(tail.skip(1) =~= l.skip(i as int + 1));
        }
        if is_word_exec(c) {
            let ghost out0 = out@;
            let ghost pend: Seq<char> = if pending {
                sep@
            } else {
                Seq::empty()
            };
            proof {
                assert(norm_rec(tail, sep@, started, pending) == pend + seq![c] + norm_rec(
                    tail.skip(1),
                    sep@,
                    true,
                    false,
                ));
            }
            if pending {
                push_all(&mut out, sep);
            }
            out.push(c);
            proof {
                assert(out@ =~= out0 + pend + seq![c]);
                assert(out0 + pend + seq![c] + norm_rec(l.skip(i as int + 1), sep@, true, false)
                    =~= out0 + (pend + seq![c] + norm_rec(l.skip(i as int + 1), sep@, true, false)));
            }
            started = true;
            pending = false;
        } else {
            proof {
                assert(norm_rec(tail, sep@, started, pending) == norm_rec(
                    tail.skip(1),
                    sep@,
                    started,
                    started,
                ));
            }
            pending = started;
        }
        i += 1;
    }
    proof {
        assert(l.skip(l.len() as int) =~= Seq::<char>::empty());
        assert(norm_rec(Seq::<char>::empty(), sep@, started, pending) == Seq::<char>::empty());
        assert(out@ + Seq::<char>::empty() =~= out@);
        lemma_norm_rec_words(l, sep@, false, false);
        if words_of(l).len() == 0 {
            assert(norm_rec(l, sep@, false, false) == Seq::<char>::empty());
            assert(join_sep(words_of(l), sep@) == Seq::<char>::empty());
        } else {
            assert(Seq::<char>::empty() + join_sep(words_of(l), sep@) =~= join_sep(
                words_of(l),
                sep@,
            ));
        }
    }
    out
}

} // verus!
