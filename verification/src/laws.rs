//! The general laws of the pipeline, stated and proved once: the shape
//! of every slug, and idempotence of normalization on valid slugs.

use vstd::prelude::*;

use crate::model::below_del_char;
use crate::model::below_del_seq;
use crate::model::is_word_char;
use crate::model::join_sep;
use crate::model::lemma_words_wf;
use crate::model::lower_char;
use crate::model::lower_seq;
use crate::model::normalize_spec;
use crate::model::word_prefix_len;
use crate::model::word_seq;
use crate::model::words_of;
use crate::slug_spec;
use crate::translit::translit_of;

verus! {

/// True of a word-run decomposition: every run is nonempty and holds
/// word characters only.
pub open spec fn slug_form(ws: Seq<Seq<char>>) -> bool {
    forall|k: int| 0 <= k < ws.len() ==> (#[trigger] ws[k]).len() > 0 && word_seq(ws[k])
}

/// True of a separator that cannot be mistaken for word material: ASCII
/// below the DEL character, and no letter or digit even after case
/// folding.
pub open spec fn plain_sep(sep: Seq<char>) -> bool {
    forall|i: int|
        0 <= i < sep.len() ==> below_del_char(#[trigger] sep[i]) && !is_word_char(
            lower_char(sep[i]),
        )
}

/// A valid slug for separator `sep`: some nonempty word runs joined by
/// single occurrences of a plain separator, with no leading or trailing
/// occurrence; under an empty separator, at most one run.
pub open spec fn is_valid_slug(s: Seq<char>, sep: Seq<char>) -> bool {
    &&& plain_sep(sep)
    &&& exists|ws: Seq<Seq<char>>|
        slug_form(ws) && (sep.len() == 0 ==> ws.len() <= 1) && s == join_sep(ws, sep)
}

/// `p` is a prefix of `s`.
pub open spec fn starts_with(s: Seq<char>, p: Seq<char>) -> bool {
    p.len() <= s.len() && s.take(p.len() as int) == p
}

/// `p` is a suffix of `s`.
pub open spec fn ends_with(s: Seq<char>, p: Seq<char>) -> bool {
    p.len() <= s.len() && s.skip(s.len() - p.len()) == p
}

/// A join of nonempty word runs is empty exactly when there is no run,
/// and otherwise begins and ends with a word character.
pub proof fn lemma_join_ends(ws: Seq<Seq<char>>, sep: Seq<char>)
    requires
        slug_form(ws),
    ensures
        ws.len() == 0 ==> join_sep(ws, sep).len() == 0,
        ws.len() > 0 ==> join_sep(ws, sep).len() > 0 && is_word_char(join_sep(ws, sep)[0])
            && is_word_char(join_sep(ws, sep).last()),
    decreases ws.len(),
{
    if ws.len() == 0 {
    } else if ws.len() == 1 {
        assert(join_sep(ws, sep) == ws[0]);
        assert(is_word_char(ws[0][0]));
        assert(is_word_char(ws[0].last()));
    } else {
        let rest = ws.skip(1);
        assert(slug_form(rest)) by {
            assert(forall|k: int| 0 <= k < rest.len() ==> rest[k] == ws[k + 1]);
        }
        lemma_join_ends(rest, sep);
        let j = join_sep(ws, sep);
        assert(j == ws[0] + sep + join_sep(rest, sep));
        assert(j[0] == ws[0][0]);
        assert(j.last() == join_sep(rest, sep).last());
    }
}

/// Every character of a join of word runs with a below-DEL separator
/// lies strictly below the ASCII DEL character.
pub proof fn lemma_join_below_del(ws: Seq<Seq<char>>, sep: Seq<char>)
    requires
        slug_form(ws),
        forall|i: int| 0 <= i < sep.len() ==> below_del_char(#[trigger] sep[i]),
    ensures
        below_del_seq(join_sep(ws, sep)),
    decreases ws.len(),
{
    if ws.len() == 0 {
    } else if ws.len() == 1 {
        assert(join_sep(ws, sep) == ws[0]);
        assert forall|i: int| 0 <= i < ws[0].len() implies below_del_char(#[trigger] ws[0][i]) by {
            assert(is_word_char(ws[0][i]));
        }
    } else {
        let rest = ws.skip(1);
        assert(slug_form(rest)) by {
            assert(forall|k: int| 0 <= k < rest.len() ==> rest[k] == ws[k + 1]);
        }
        lemma_join_below_del(rest, sep);
        let j = join_sep(ws, sep);
        assert(j == ws[0] + sep + join_sep(rest, sep));
        assert forall|i: int| 0 <= i < j.len() implies below_del_char(#[trigger] j[i]) by {
            if i < ws[0].len() {
                assert(is_word_char(ws[0][i]));
            } else if i < ws[0].len() + sep.len() {
                assert(j[i] == sep[i - ws[0].len()]);
            } else {
                assert(j[i] == join_sep(rest, sep)[i - ws[0].len() - sep.len()]);
            }
        }
    }
}

/// Every non-randomized slug is its word runs joined by the separator:
/// each run is a nonempty sequence of ASCII lowercase letters and digits,
/// a nonempty slug begins and ends with such a character, and a separator
/// that does not begin or end with a word character is no prefix and no
/// suffix of it.
pub proof fn lemma_slug_alphabet(text: Seq<char>, sep: Seq<char>)
    ensures
        slug_spec(text, sep) == join_sep(words_of(lower_seq(translit_of(text))), sep),
        slug_form(words_of(lower_seq(translit_of(text)))),
        slug_spec(text, sep).len() > 0 ==> is_word_char(slug_spec(text, sep)[0]) && is_word_char(
            slug_spec(text, sep).last(),
        ),
        sep.len() > 0 && !is_word_char(sep[0]) ==> !starts_with(slug_spec(text, sep), sep),
        sep.len() > 0 && !is_word_char(sep.last()) ==> !ends_with(slug_spec(text, sep), sep),
{
    let l = lower_seq(translit_of(text));
    let ws = words_of(l);
    let s = slug_spec(text, sep);
    lemma_words_wf(l);
    lemma_join_ends(ws, sep);
    if sep.len() > 0 && !is_word_char(sep[0]) && starts_with(s, sep) {
        assert(s.take(sep.len() as int)[0] == s[0]);
        assert(sep[0] == s[0]);
    }
    if sep.len() > 0 && !is_word_char(sep.last()) && ends_with(s, sep) {
        assert(s.skip(s.len() - sep.len()).last() == s.last());
        assert(sep.last() == s.last());
    }
}

/// Case folding distributes over concatenation.
proof fn lemma_lower_concat(a: Seq<char>, b: Seq<char>)
    ensures
        lower_seq(a + b) == lower_seq(a) + lower_seq(b),
{
    assert(lower_seq(a + b) =~= lower_seq(a) + lower_seq(b));
}

/// Case folding leaves word runs and plain separators unchanged.
proof fn lemma_lower_id(s: Seq<char>)
    requires
        forall|i: int| 0 <= i < s.len() ==> lower_char(#[trigger] s[i]) == s[i],
    ensures
        lower_seq(s) == s,
{
    assert(lower_seq(s) =~= s);
}

/// A word character folds to itself.
proof fn lemma_word_lower_id(c: char)
    requires
        is_word_char(c),
    ensures
        lower_char(c) == c,
{
}

/// A plain separator character folds to itself and is no word character.
proof fn lemma_plain_lower_id(c: char)
    requires
        !is_word_char(lower_char(c)),
    ensures
        lower_char(c) == c,
        !is_word_char(c),
{
    if 65 <= c as u32 && c as u32 <= 90 {
        assert(is_word_char(lower_char(c)));
    }
}

/// The longest word prefix of a word run followed by non-word material
/// is the run itself.
proof fn lemma_wpl_concat(w: Seq<char>, t: Seq<char>)
    requires
        word_seq(w),
        t.len() == 0 || !is_word_char(t[0]),
    ensures
        word_prefix_len(w + t) == w.len(),
    decreases w.len(),
{
    if w.len() == 0 {
        assert(w + t =~= t);
    } else {
        assert((w + t)[0] == w[0]);
        assert((w + t).skip(1) =~= w.skip(1) + t);
        assert(word_seq(w.skip(1)));
        lemma_wpl_concat(w.skip(1), t);
    }
}

/// Extracting word runs from a word run followed by non-word material
/// yields that run, then the runs of the rest.
proof fn lemma_words_word_prefix(w: Seq<char>, t: Seq<char>)
    requires
        w.len() > 0,
        word_seq(w),
        t.len() == 0 || !is_word_char(t[0]),
    ensures
        words_of(w + t) == seq![w] + words_of(t),
{
    lemma_wpl_concat(w, t);
    assert((w + t)[0] == w[0]);
    assert((w + t).take(w.len() as int) =~= w);
    assert((w + t).skip(w.len() as int) =~= t);
}

/// Leading non-word material contributes no word run.
proof fn lemma_words_nonword_prefix(u: Seq<char>, t: Seq<char>)
    requires
        forall|i: int| 0 <= i < u.len() ==> !is_word_char(#[trigger] u[i]),
    ensures
        words_of(u + t) == words_of(t),
    decreases u.len(),
{
    if u.len() == 0 {
        assert(u + t =~= t);
    } else {
        assert((u + t)[0] == u[0]);
        assert((u + t).skip(1) =~= u.skip(1) + t);
        lemma_words_nonword_prefix(u.skip(1), t);
    }
}

/// Extracting word runs inverts joining them: the runs of a valid slug
/// are exactly the runs it was joined from.
pub proof fn lemma_words_of_join(ws: Seq<Seq<char>>, sep: Seq<char>)
    requires
        slug_form(ws),
        forall|i: int| 0 <= i < sep.len() ==> !is_word_char(#[trigger] sep[i]),
        sep.len() == 0 ==> ws.len() <= 1,
    ensures
        words_of(join_sep(ws, sep)) == ws,
    decreases ws.len(),
{
    if ws.len() == 0 {
        assert(words_of(join_sep(ws, sep)) =~= ws);
    } else if ws.len() == 1 {
        let w = ws[0];
        assert(w + Seq::<char>::empty() =~= w);
        lemma_words_word_prefix(w, Seq::empty());
        assert(words_of(Seq::<char>::empty()) == Seq::<Seq<char>>::empty());
        assert(seq![w] + Seq::<Seq<char>>::empty() =~= ws);
    } else {
        let rest = ws.skip(1);
        assert(slug_form(rest)) by {
            assert(forall|k: int| 0 <= k < rest.len() ==> rest[k] == ws[k + 1]);
        }
        let tail = sep + join_sep(rest, sep);
        assert(join_sep(ws, sep) == ws[0] + sep + join_sep(rest, sep));
        assert(ws[0] + sep + join_sep(rest, sep) =~= ws[0] + tail);
        assert(tail[0] == sep[0]);
        lemma_words_word_prefix(ws[0], tail);
        lemma_words_nonword_prefix(sep, join_sep(rest, sep));
        lemma_words_of_join(rest, sep);
        assert(seq![ws[0]] + rest =~= ws);
    }
}

/// Normalizing a valid slug with its own separator returns it unchanged:
/// normalization is idempotent on its range.
pub proof fn lemma_normalize_idempotent(ws: Seq<Seq<char>>, sep: Seq<char>)
    requires
        slug_form(ws),
        plain_sep(sep),
        sep.len() == 0 ==> ws.len() <= 1,
    ensures
        normalize_spec(join_sep(ws, sep), sep) == join_sep(ws, sep),
    decreases ws.len(),
{
    let s = join_sep(ws, sep);
    assert(forall|i: int| 0 <= i < sep.len() ==> !is_word_char(#[trigger] sep[i])
        && lower_char(sep[i]) == sep[i]) by {
        assert forall|i: int|
            0 <= i < sep.len() implies !is_word_char(#[trigger] sep[i]) && lower_char(sep[i])
            == sep[i] by {
            lemma_plain_lower_id(sep[i]);
        }
    }
    assert(lower_seq(s) == s) by {
        lemma_lower_join(ws, sep);
    }
    lemma_words_of_join(ws, sep);
}

/// Case folding leaves a join of word runs and plain separators
/// unchanged.
proof fn lemma_lower_join(ws: Seq<Seq<char>>, sep: Seq<char>)
    requires
        slug_form(ws),
        forall|i: int| 0 <= i < sep.len() ==> lower_char(#[trigger] sep[i]) == sep[i],
    ensures
        lower_seq(join_sep(ws, sep)) == join_sep(ws, sep),
    decreases ws.len(),
{
    if ws.len() == 0 {
        assert(lower_seq(join_sep(ws, sep)) =~= join_sep(ws, sep));
    } else if ws.len() == 1 {
        assert forall|i: int|
            0 <= i < ws[0].len() implies lower_char(#[trigger] ws[0][i]) == ws[0][i] by {
            lemma_word_lower_id(ws[0][i]);
        }
        lemma_lower_id(ws[0]);
    } else {
        let rest = ws.skip(1);
        assert(slug_form(rest)) by {
            assert(forall|k: int| 0 <= k < rest.len() ==> rest[k] == ws[k + 1]);
        }
        lemma_lower_join(rest, sep);
        assert forall|i: int|
            0 <= i < ws[0].len() implies lower_char(#[trigger] ws[0][i]) == ws[0][i] by {
            lemma_word_lower_id(ws[0][i]);
        }
        lemma_lower_id(ws[0]);
        lemma_lower_id(sep);
        lemma_lower_concat(ws[0], sep + join_sep(rest, sep));
        lemma_lower_concat(sep, join_sep(rest, sep));
        assert(join_sep(ws, sep) == ws[0] + sep + join_sep(rest, sep));
        assert(ws[0] + sep + join_sep(rest, sep) =~= ws[0] + (sep + join_sep(rest, sep)));
        assert(lower_seq(join_sep(ws, sep)) =~= join_sep(ws, sep));
    }
}

} // verus!
