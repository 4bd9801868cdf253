//! The mathematical model of slugs: word characters, ASCII case folding,
//! maximal word runs, and joining runs with a separator.

use vstd::prelude::*;

verus! {

/// The characters that may stand inside a slug's word runs: ASCII
/// lowercase letters and ASCII digits.
pub open spec fn is_word_char(c: char) -> bool {
    (97 <= c as u32 && c as u32 <= 122) || (48 <= c as u32 && c as u32 <= 57)
}

/// True of characters in the ASCII range.
pub open spec fn ascii_char(c: char) -> bool {
    c as u32 <= 127
}

/// True when every character of `s` is ASCII.
pub open spec fn ascii_seq(s: Seq<char>) -> bool {
    forall|i: int| 0 <= i < s.len() ==> ascii_char(#[trigger] s[i])
}

/// True of characters strictly below the ASCII DEL character.
pub open spec fn below_del_char(c: char) -> bool {
    (c as u32) < 127
}

/// True when every character of `s` lies strictly below the ASCII DEL
/// character.
pub open spec fn below_del_seq(s: Seq<char>) -> bool {
    forall|i: int| 0 <= i < s.len() ==> below_del_char(#[trigger] s[i])
}

/// ASCII case folding of a single character: `A`..`Z` fold to `a`..`z`,
/// everything else is unchanged.
pub open spec fn lower_char(c: char) -> char {
    if 65 <= c as u32 && c as u32 <= 90 {
        ((c as u32 + 32) as u8) as char
    } else {
        c
    }
}

/// ASCII case folding of a character sequence.
pub open spec fn lower_seq(s: Seq<char>) -> Seq<char> {
    Seq::new(s.len(), |i: int| lower_char(s[i]))
}

/// True when `w` consists of word characters only.
pub open spec fn word_seq(w: Seq<char>) -> bool {
    forall|i: int| 0 <= i < w.len() ==> is_word_char(#[trigger] w[i])
}

/// The length of the longest prefix of `s` made of word characters.
pub open spec fn word_prefix_len(s: Seq<char>) -> nat
    decreases s.len(),
{
    if s.len() == 0 || !is_word_char(s[0]) {
        0
    } else {
        1 + word_prefix_len(s.skip(1))
    }
}

pub proof fn lemma_word_prefix_len(s: Seq<char>)
    ensures
        word_prefix_len(s) <= s.len(),
        forall|i: int| 0 <= i < word_prefix_len(s) ==> is_word_char(#[trigger] s[i]),
        word_prefix_len(s) < s.len() ==> !is_word_char(s[word_prefix_len(s) as int]),
        s.len() > 0 && is_word_char(s[0]) ==> word_prefix_len(s) >= 1,
    decreases s.len(),
{
    if s.len() == 0 || !is_word_char(s[0]) {
    } else {
        lemma_word_prefix_len(s.skip(1));
        assert forall|i: int| 0 <= i < word_prefix_len(s) implies is_word_char(#[trigger] s[i]) by {
            if i >= 1 {
                assert(s.skip(1)[i - 1] == s[i]);
            }
        }
        if word_prefix_len(s) < s.len() {
            assert(s.skip(1)[word_prefix_len(s) as int - 1] == s[word_prefix_len(s) as int]);
        }
    }
}

/// The maximal runs of word characters in `s`, in order.
pub open spec fn words_of(s: Seq<char>) -> Seq<Seq<char>>
    decreases s.len(),
    via words_of_decreases
{
    if s.len() == 0 {
        Seq::empty()
    } else if !is_word_char(s[0]) {
        words_of(s.skip(1))
    } else {
        seq![s.take(word_prefix_len(s) as int)] + words_of(s.skip(word_prefix_len(s) as int))
    }
}

#[via_fn]
proof fn words_of_decreases(s: Seq<char>) {
    lemma_word_prefix_len(s);
}

/// The word runs `ws` joined with a single occurrence of `sep` between
/// each pair of neighbours.
pub open spec fn join_sep(ws: Seq<Seq<char>>, sep: Seq<char>) -> Seq<char>
    decreases ws.len(),
{
    if ws.len() == 0 {
        Seq::empty()
    } else if ws.len() == 1 {
        ws[0]
    } else {
        ws[0] + sep + join_sep(ws.skip(1), sep)
    }
}

/// What the normalizer returns: fold the case, take the maximal runs of
/// word characters, and join them with the separator. Joining also trims:
/// leading and trailing non-word material yields no dangling separator,
/// and an empty separator concatenates the runs.
pub open spec fn normalize_spec(t: Seq<char>, sep: Seq<char>) -> Seq<char> {
    join_sep(words_of(lower_seq(t)), sep)
}

/// A left-to-right scanner equivalent to `normalize_spec` (on sequences
/// that are already case folded): `started` records whether a word
/// character was emitted yet, `pending` whether a separator is owed
/// before the next word character.
pub open spec fn norm_rec(s: Seq<char>, sep: Seq<char>, started: bool, pending: bool) -> Seq<char>
    decreases s.len(),
{
    if s.len() == 0 {
        Seq::empty()
    } else if is_word_char(s[0]) {
        (if pending {
            sep
        } else {
            Seq::empty()
        }) + seq![s[0]] + norm_rec(s.skip(1), sep, true, false)
    } else {
        norm_rec(s.skip(1), sep, started, started)
    }
}

/// Every run that `words_of` yields is a nonempty sequence of word
/// characters.
pub proof fn lemma_words_wf(s: Seq<char>)
    ensures
        forall|k: int|
            0 <= k < words_of(s).len() ==> (#[trigger] words_of(s)[k]).len() > 0 && word_seq(
                words_of(s)[k],
            ),
    decreases s.len(),
{
    lemma_word_prefix_len(s);
    if s.len() == 0 {
        assert(words_of(s) == Seq::<Seq<char>>::empty());
    } else if !is_word_char(s[0]) {
        lemma_words_wf(s.skip(1));
        assert(words_of(s) == words_of(s.skip(1)));
    } else {
        let p = word_prefix_len(s) as int;
        lemma_words_wf(s.skip(p));
        let w = s.take(p);
        assert(w.len() > 0);
        assert forall|i: int| 0 <= i < w.len() implies is_word_char(#[trigger] w[i]) by {
            assert(w[i] == s[i]);
        }
        assert forall|k: int|
            0 <= k < words_of(s).len() implies (#[trigger] words_of(s)[k]).len() > 0 && word_seq(
            words_of(s)[k],
        ) by {
            if k == 0 {
                assert(words_of(s)[0] == w);
            } else {
                assert(words_of(s)[k] == words_of(s.skip(p))[k - 1]);
            }
        }
    }
}

/// The scanner agrees with the words/join formulation. The leading
/// separator is owed exactly when a word character was already emitted
/// and either one is pending or more non-word material comes first.
#[verifier::rlimit(60)]
pub proof fn lemma_norm_rec_words(s: Seq<char>, sep: Seq<char>, started: bool, pending: bool)
    requires
        pending ==> started,
    ensures
        norm_rec(s, sep, started, pending) == (if words_of(s).len() == 0 {
            Seq::<char>::empty()
        } else {
            (if started && (pending || !is_word_char(s[0])) {
                sep
            } else {
                Seq::<char>::empty()
            }) + join_sep(words_of(s), sep)
        }),
    decreases s.len(),
{
    if s.len() == 0 {
        assert(words_of(s) == Seq::<Seq<char>>::empty());
    } else if !is_word_char(s[0]) {
        lemma_norm_rec_words(s.skip(1), sep, started, started);
        assert(words_of(s) == words_of(s.skip(1)));
        if words_of(s).len() > 0 {
            assert(s.skip(1).len() > 0);
            let j = join_sep(words_of(s), sep);
            if started {
                assert(norm_rec(s, sep, started, pending) == sep + j);
            } else {
                assert(norm_rec(s, sep, started, pending) == Seq::<char>::empty() + j);
            }
        }
    } else {
        lemma_word_prefix_len(s);
        let p = word_prefix_len(s) as int;
        let w = s.take(p);
        let rest = s.skip(p);
        let skip1 = s.skip(1);
        let pend: Seq<char> = if pending {
            sep
        } else {
            Seq::empty()
        };
        assert(words_of(s) == seq![w] + words_of(rest));
        assert(words_of(s)[0] == w);
        assert(words_of(s).skip(1) =~= words_of(rest));
        lemma_norm_rec_words(skip1, sep, true, false);
        assert(norm_rec(s, sep, started, pending) == pend + seq![s[0]] + norm_rec(
            skip1,
            sep,
            true,
            false,
        ));
        if p == 1 {
            assert(rest =~= skip1);
            assert(w =~= seq![s[0]]);
            if words_of(skip1).len() == 0 {
                assert(norm_rec(skip1, sep, true, false) == Seq::<char>::empty());
                assert(words_of(s).len() == 1);
                assert(join_sep(words_of(s), sep) == w);
                assert(pend + seq![s[0]] + Seq::<char>::empty() =~= pend + w);
            } else {
                assert(skip1.len() > 0);
                assert(!is_word_char(skip1[0])) by {
                    if is_word_char(skip1[0]) {
                        assert(word_prefix_len(s) == 1 + word_prefix_len(skip1));
                        lemma_word_prefix_len(skip1);
                    }
                }
                assert(norm_rec(skip1, sep, true, false) == sep + join_sep(
                    words_of(skip1),
                    sep,
                ));
                assert(words_of(s).len() >= 2);
                assert(join_sep(words_of(s), sep) == w + sep + join_sep(words_of(rest), sep));
                assert(pend + seq![s[0]] + (sep + join_sep(words_of(skip1), sep)) =~= pend + (w
                    + sep + join_sep(words_of(rest), sep)));
            }
        } else {
            assert(is_word_char(skip1[0])) by {
                if !is_word_char(skip1[0]) {
                    assert(word_prefix_len(s) == 1 + word_prefix_len(skip1));
                }
            }
            assert(word_prefix_len(s) == 1 + word_prefix_len(skip1));
            let w1 = skip1.take(p - 1);
            assert(skip1.skip(p - 1) =~= rest);
            assert(words_of(skip1) == seq![w1] + words_of(rest));
            assert(words_of(skip1)[0] == w1);
            assert(words_of(skip1).len() >= 1);
            assert(norm_rec(skip1, sep, true, false) == Seq::<char>::empty() + join_sep(
                words_of(skip1),
                sep,
            ));
            assert(w =~= seq![s[0]] + w1);
            if words_of(rest).len() == 0 {
                assert(words_of(s).len() == 1 && words_of(skip1).len() == 1);
                assert(join_sep(words_of(s), sep) == w);
                assert(join_sep(words_of(skip1), sep) == w1);
                assert(pend + seq![s[0]] + (Seq::<char>::empty() + w1) =~= pend + w);
            } else {
                assert(words_of(s).len() >= 2 && words_of(skip1).len() >= 2);
                assert(words_of(skip1).skip(1) =~= words_of(rest));
                assert(join_sep(words_of(s), sep) == w + sep + join_sep(words_of(rest), sep));
                assert(join_sep(words_of(skip1), sep) == w1 + sep + join_sep(
                    words_of(rest),
                    sep,
                ));
                assert(pend + seq![s[0]] + (Seq::<char>::empty() + (w1 + sep + join_sep(
                    words_of(rest),
                    sep,
                ))) =~= pend + (w + sep + join_sep(words_of(rest), sep)));
            }
        }
    }
}

} // verus!
