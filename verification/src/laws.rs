//! What holds of the stripped text whatever the input is.

use crate::charset::is_white_space;
use crate::grammar::{after_tag, is_tail_of, lemma_tag_consumes, lemma_tail_of_tail, stripped};
use vstd::prelude::*;

verus! {

/// Text that holds neither a `<` nor a NUL character.
pub open spec fn is_plain(s: Seq<char>) -> bool {
    forall|i: int| 0 <= i < s.len() ==> s[i] != '<' && s[i] != '\0'
}

/// Stripping never makes a text longer.
pub proof fn lemma_stripped_is_no_longer(s: Seq<char>)
    ensures
        stripped(s).len() <= s.len(),
    decreases s.len(),
{
    if s.len() > 0 {
        let rest = s.drop_first();
        lemma_tag_consumes(rest, '<');
        lemma_stripped_is_no_longer(after_tag(rest));
        lemma_stripped_is_no_longer(rest);
    }
}

/// The stripped text holds no NUL character, wherever the input had one.
pub proof fn lemma_stripped_has_no_nul(s: Seq<char>)
    ensures
        forall|i: int| 0 <= i < stripped(s).len() ==> stripped(s)[i] != '\0',
    decreases s.len(),
{
    if s.len() > 0 {
        let c = s[0];
        let rest = s.drop_first();
        if c == '\0' {
            lemma_stripped_has_no_nul(rest);
            assert(stripped(s) == stripped(rest));
        } else if c == '<' && rest.len() > 0 && !is_white_space(rest[0]) {
            lemma_tag_consumes(rest, '<');
            lemma_stripped_has_no_nul(after_tag(rest));
            assert(stripped(s) == stripped(after_tag(rest)));
        } else {
            lemma_stripped_has_no_nul(rest);
            assert forall|i: int| 0 <= i < stripped(s).len() implies stripped(s)[i] != '\0' by {
                if i > 0 {
                    assert(stripped(s)[i] == stripped(rest)[i - 1]);
                }
            }
        }
    }
}

/// Plain text comes back as it went in.
pub proof fn lemma_plain_text_is_kept(s: Seq<char>)
    requires
        is_plain(s),
    ensures
        stripped(s) == s,
    decreases s.len(),
{
    if s.len() > 0 {
        let rest = s.drop_first();
        assert(is_plain(rest)) by {
            assert forall|i: int| 0 <= i < rest.len() implies rest[i] != '<' && rest[i] != '\0' by {
                assert(rest[i] == s[i + 1]);
            }
        }
        lemma_plain_text_is_kept(rest);
        assert(s[0] != '<' && s[0] != '\0');
        assert(seq![s[0]] + rest =~= s);
    }
}

/// Text in which stripping finds nothing to take out: it holds no NUL
/// character, and each `<` in it stands in front of whitespace or at the end.
pub open spec fn has_no_markup(s: Seq<char>) -> bool {
    forall|i: int|
        0 <= i < s.len() ==> #[trigger] s[i] != '\0' && (s[i] == '<' && i + 1 < s.len()
            ==> is_white_space(s[i + 1]))
}

/// Text without markup comes back as it went in.
pub proof fn lemma_text_without_markup_is_kept(s: Seq<char>)
    requires
        has_no_markup(s),
    ensures
        stripped(s) == s,
    decreases s.len(),
{
    if s.len() > 0 {
        let rest = s.drop_first();
        assert(has_no_markup(rest)) by {
            assert forall|i: int| 0 <= i < rest.len() implies #[trigger] rest[i] != '\0' && (
            rest[i] == '<' && i + 1 < rest.len() ==> is_white_space(rest[i + 1])) by {
                assert(rest[i] == s[i + 1]);
                if i + 1 < rest.len() {
                    assert(rest[i + 1] == s[i + 2]);
                }
            }
        }
        lemma_text_without_markup_is_kept(rest);
        assert(s[0] != '\0');
        if s[0] == '<' && rest.len() > 0 {
            assert(rest[0] == s[1]);
        }
        assert(seq![s[0]] + rest =~= s);
    }
}

/// What stripping gives holds no markup.
pub proof fn lemma_stripped_has_no_markup(s: Seq<char>)
    ensures
        has_no_markup(stripped(s)),
    decreases s.len(),
{
    if s.len() > 0 {
        let c = s[0];
        let rest = s.drop_first();
        if c == '\0' {
            lemma_stripped_has_no_markup(rest);
        } else if c == '<' && rest.len() > 0 && !is_white_space(rest[0]) {
            lemma_tag_consumes(rest, '<');
            lemma_stripped_has_no_markup(after_tag(rest));
        } else {
            lemma_stripped_has_no_markup(rest);
            let out = stripped(s);
            let tail = stripped(rest);
            assert(out == seq![c] + tail);
            if c == '<' && rest.len() > 0 {
                assert(tail == seq![rest[0]] + stripped(rest.drop_first()));
                assert(out[1] == rest[0]);
            } else if c == '<' {
                assert(tail.len() == 0);
            }
            assert forall|i: int| 0 <= i < out.len() implies #[trigger] out[i] != '\0' && (out[i]
                == '<' && i + 1 < out.len() ==> is_white_space(out[i + 1])) by {
                if i > 0 {
                    assert(out[i] == tail[i - 1]);
                    if i < tail.len() {
                        assert(out[i + 1] == tail[i]);
                    }
                }
            }
        }
    }
}

/// Stripping a text twice gives what stripping it once gives.
pub proof fn lemma_strip_is_idempotent(s: Seq<char>)
    ensures
        stripped(stripped(s)) == stripped(s),
{
    lemma_stripped_has_no_markup(s);
    lemma_text_without_markup_is_kept(stripped(s));
}

/// `sub` is what is left of `s` when some of its characters are taken out:
/// the characters of `sub` occur in `s`, in the same order.
pub open spec fn is_subsequence_of(sub: Seq<char>, s: Seq<char>) -> bool
    decreases s.len(),
{
    if sub.len() == 0 {
        true
    } else if s.len() == 0 {
        false
    } else if sub[0] == s[0] && is_subsequence_of(sub.drop_first(), s.drop_first()) {
        true
    } else {
        is_subsequence_of(sub, s.drop_first())
    }
}

/// What can be had from a tail of `s` can be had from `s`.
pub proof fn lemma_subsequence_of_tail(sub: Seq<char>, tail: Seq<char>, s: Seq<char>)
    requires
        is_subsequence_of(sub, tail),
        is_tail_of(tail, s),
    ensures
        is_subsequence_of(sub, s),
    decreases s.len(),
{
    if tail.len() == s.len() {
        assert(tail =~= s);
    } else {
        assert(tail =~= s.drop_first().skip(s.len() - 1 - tail.len()));
        lemma_subsequence_of_tail(sub, tail, s.drop_first());
    }
}

/// Stripping only takes characters out: what stays, stays in its order.
pub proof fn lemma_stripped_keeps_order(s: Seq<char>)
    ensures
        is_subsequence_of(stripped(s), s),
    decreases s.len(),
{
    if s.len() > 0 {
        let c = s[0];
        let rest = s.drop_first();
        assert(is_tail_of(rest, s));
        if c == '\0' {
            lemma_stripped_keeps_order(rest);
            lemma_subsequence_of_tail(stripped(rest), rest, s);
        } else if c == '<' && rest.len() > 0 && !is_white_space(rest[0]) {
            lemma_tag_consumes(rest, '<');
            lemma_stripped_keeps_order(after_tag(rest));
            lemma_tail_of_tail(after_tag(rest), rest, s);
            lemma_subsequence_of_tail(stripped(after_tag(rest)), after_tag(rest), s);
        } else {
            lemma_stripped_keeps_order(rest);
            assert(stripped(s).drop_first() =~= stripped(rest));
        }
    }
}

/// A `<` in front of whitespace is text: it stays, and so does the
/// whitespace behind it.
pub proof fn lemma_angle_before_whitespace_is_text(white: char, rest: Seq<char>)
    requires
        is_white_space(white),
    ensures
        stripped(seq!['<', white] + rest) == seq!['<', white] + stripped(rest),
{
    let text = seq!['<', white] + rest;
    let behind = text.drop_first();
    assert(behind =~= seq![white] + rest);
    assert(behind.drop_first() =~= rest);
    assert(text[0] == '<' && behind[0] == white);
    assert(stripped(behind) == seq![white] + stripped(rest));
    assert(seq!['<'] + (seq![white] + stripped(rest)) =~= seq!['<', white] + stripped(rest));
}

} // verus!
