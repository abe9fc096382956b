//! How far a construct reaches: markup that is never closed takes the rest
//! of the text with it, and markup that is closed is skipped whole, however
//! long it is.

use crate::charset::is_white_space;
use crate::cursor::starts_with_lowercase;
use crate::grammar::{
    after_comment, after_html_quote, after_parenthesis, after_php_from, after_php_quote,
    after_tag, after_tag_from, after_xml_from, comment_closer, comment_opener, is_quote,
    is_tail_of, lemma_html_quote_consumes, lemma_parenthesis_consumes, lemma_php_quote_consumes,
    lemma_tag_consumes, stripped, xml_marker,
};
use vstd::prelude::*;

verus! {

/// `c` occurs nowhere in `s`.
pub open spec fn lacks(s: Seq<char>, c: char) -> bool {
    forall|i: int| 0 <= i < s.len() ==> s[i] != c
}

/// A character that means nothing to a tag, whatever stands before it.
pub open spec fn is_ordinary_in_tag(c: char) -> bool {
    c != '>' && c != '<' && !is_quote(c) && c != '?' && c != '!'
}

/// Every character of `s` means nothing to a tag.
pub open spec fn is_ordinary_run(s: Seq<char>) -> bool {
    forall|i: int| 0 <= i < s.len() ==> is_ordinary_in_tag(#[trigger] s[i])
}

/// What a text lacks, its tails lack too.
pub proof fn lemma_tail_lacks(tail: Seq<char>, s: Seq<char>, c: char)
    requires
        is_tail_of(tail, s),
        lacks(s, c),
    ensures
        lacks(tail, c),
{
    assert forall|i: int| 0 <= i < tail.len() implies tail[i] != c by {
        assert(tail[i] == s[s.len() - tail.len() + i]);
    }
}

/// An attribute value whose closing quote is missing runs to the end of the
/// text.
pub proof fn lemma_unclosed_html_quote_is_absorbed(s: Seq<char>, quote: char)
    requires
        lacks(s, quote),
    ensures
        after_html_quote(s, quote) == Seq::<char>::empty(),
    decreases s.len(),
{
    if s.len() > 0 {
        assert(s[0] != quote);
        lemma_tail_lacks(s.drop_first(), s, quote);
        lemma_unclosed_html_quote_is_absorbed(s.drop_first(), quote);
    }
}

/// A comment runs to the end of a text that holds no `>`.
pub proof fn lemma_unclosed_comment_is_absorbed(s: Seq<char>)
    requires
        lacks(s, '>'),
    ensures
        after_comment(s) == Seq::<char>::empty(),
    decreases s.len(),
{
    if s.len() > 0 {
        let rest = s.drop_first();
        lemma_tail_lacks(rest, s, '>');
        if starts_with_lowercase(rest, comment_closer()) {
            assert(rest[1] != '>');
            assert(comment_closer()[1] == '>');
        }
        lemma_unclosed_comment_is_absorbed(rest);
    }
}

/// A code block runs to the end of a text that holds no `>`.
pub proof fn lemma_unclosed_php_is_absorbed(s: Seq<char>, last: char)
    requires
        lacks(s, '>'),
    ensures
        after_php_from(s, last) == Seq::<char>::empty(),
    decreases s.len(),
{
    if s.len() > 0 {
        let c = s[0];
        let rest = s.drop_first();
        assert(c != '>');
        lemma_tail_lacks(rest, s, '>');
        if c == '(' {
            lemma_parenthesis_consumes(rest, 1);
            lemma_tail_lacks(after_parenthesis(rest), rest, '>');
            lemma_unclosed_php_is_absorbed(after_parenthesis(rest), ')');
        } else if is_quote(c) && last != '\\' {
            lemma_php_quote_consumes(rest, c, c);
            lemma_tail_lacks(after_php_quote(rest, c), rest, '>');
            lemma_unclosed_php_is_absorbed(after_php_quote(rest, c), c);
        } else {
            lemma_unclosed_php_is_absorbed(rest, c);
        }
    }
}

/// A tag, and an XML processing instruction, run to the end of a text that
/// holds no `>`: what cannot be closed is never given back.
pub proof fn lemma_unclosed_tag_is_absorbed(s: Seq<char>, last: char)
    requires
        lacks(s, '>'),
    ensures
        after_tag_from(s, last) == Seq::<char>::empty(),
        after_xml_from(s, last) == Seq::<char>::empty(),
    decreases s.len(),
{
    if s.len() > 0 {
        let c = s[0];
        let rest = s.drop_first();
        assert(c != '>');
        lemma_tail_lacks(rest, s, '>');
        if c == '<' {
            let inner = after_tag_from(rest, '<');
            lemma_tag_consumes(rest, '<');
            lemma_tail_lacks(inner, rest, '>');
            lemma_unclosed_tag_is_absorbed(inner, '>');
        } else if is_quote(c) {
            let inner = after_html_quote(rest, c);
            lemma_html_quote_consumes(rest, c);
            lemma_tail_lacks(inner, rest, '>');
            lemma_unclosed_tag_is_absorbed(inner, c);
        } else {
            lemma_unclosed_tag_is_absorbed(rest, c);
        }
        if c == '?' && last == '<' {
            if starts_with_lowercase(rest, xml_marker()) {
                assert(is_tail_of(rest.skip(3), rest));
                lemma_tail_lacks(rest.skip(3), rest, '>');
                lemma_unclosed_tag_is_absorbed(rest.skip(3), 'l');
            } else {
                lemma_unclosed_php_is_absorbed(rest, '?');
            }
        }
        if c == '!' && last == '<' && starts_with_lowercase(rest, comment_opener()) {
            assert(is_tail_of(rest.skip(2), rest));
            lemma_tail_lacks(rest.skip(2), rest, '>');
            lemma_unclosed_comment_is_absorbed(rest.skip(2));
        }
    }
}

/// Nothing is left of a text that opens a tag and then holds no `>`.
pub proof fn lemma_unclosed_tag_leaves_nothing(s: Seq<char>)
    requires
        lacks(s, '>'),
        s.len() > 0,
        !is_white_space(s[0]),
    ensures
        stripped(seq!['<'] + s) == Seq::<char>::empty(),
{
    let text = seq!['<'] + s;
    assert(text[0] == '<');
    assert(text.drop_first() =~= s);
    lemma_unclosed_tag_is_absorbed(s, '<');
    assert(stripped(Seq::<char>::empty()) == Seq::<char>::empty());
}

/// An attribute value is skipped up to its closing quote, however long it is.
pub proof fn lemma_quoted_value_is_skipped(value: Seq<char>, quote: char, rest: Seq<char>)
    requires
        lacks(value, quote),
    ensures
        after_html_quote(value + seq![quote] + rest, quote) == rest,
    decreases value.len(),
{
    let s = value + seq![quote] + rest;
    if value.len() == 0 {
        assert(s.drop_first() =~= rest);
    } else {
        assert(s[0] == value[0]);
        assert(s.drop_first() =~= value.drop_first() + seq![quote] + rest);
        assert(is_tail_of(value.drop_first(), value));
        lemma_tail_lacks(value.drop_first(), value, quote);
        lemma_quoted_value_is_skipped(value.drop_first(), quote, rest);
    }
}

/// A tag passes over a run of ordinary characters and remembers the last of
/// them.
pub proof fn lemma_tag_skips_ordinary_run(run: Seq<char>, rest: Seq<char>, last: char)
    requires
        is_ordinary_run(run),
    ensures
        after_tag_from(run + rest, last) == after_tag_from(
            rest,
            if run.len() == 0 {
                last
            } else {
                run.last()
            },
        ),
    decreases run.len(),
{
    let s = run + rest;
    if run.len() == 0 {
        assert(s =~= rest);
    } else {
        assert(s[0] == run[0]);
        assert(is_ordinary_in_tag(run[0]));
        assert(s.drop_first() =~= run.drop_first() + rest);
        assert(is_ordinary_run(run.drop_first())) by {
            assert forall|i: int| 0 <= i < run.drop_first().len() implies is_ordinary_in_tag(
                #[trigger] run.drop_first()[i],
            ) by {
                assert(run.drop_first()[i] == run[i + 1]);
            }
        }
        lemma_tag_skips_ordinary_run(run.drop_first(), rest, run[0]);
        if run.len() > 1 {
            assert(run.drop_first().last() == run.last());
        }
    }
}

/// A tag with a quoted attribute value is skipped whole, whatever the length
/// of the value: `name`, the value between two `quote`s, `tail`, and the `>`.
pub proof fn lemma_tag_with_attribute_is_skipped(
    name: Seq<char>,
    quote: char,
    value: Seq<char>,
    tail: Seq<char>,
    rest: Seq<char>,
)
    requires
        is_ordinary_run(name),
        is_ordinary_run(tail),
        is_quote(quote),
        lacks(value, quote),
    ensures
        after_tag(name + seq![quote] + value + seq![quote] + tail + seq!['>'] + rest) == rest,
{
    let closing = tail + seq!['>'] + rest;
    let quoted = value + seq![quote] + closing;
    let opened = seq![quote] + quoted;
    let s = name + seq![quote] + value + seq![quote] + tail + seq!['>'] + rest;
    assert(s =~= name + opened);
    lemma_tag_skips_ordinary_run(name, opened, '<');
    let last = if name.len() == 0 {
        '<'
    } else {
        name.last()
    };
    assert(opened.drop_first() =~= quoted);
    lemma_quoted_value_is_skipped(value, quote, closing);
    assert(after_tag_from(opened, last) == after_tag_from(closing, quote));
    assert(closing =~= tail + (seq!['>'] + rest));
    lemma_tag_skips_ordinary_run(tail, seq!['>'] + rest, quote);
    assert((seq!['>'] + rest).drop_first() =~= rest);
}

/// A tag that holds only ordinary characters is removed with its two angle
/// brackets, and nothing else is: `<br>`, `<br/>` and `<br />` all go.
pub proof fn lemma_simple_tag_is_removed(name: Seq<char>, rest: Seq<char>)
    requires
        is_ordinary_run(name),
        !(name.len() > 0 && is_white_space(name[0])),
    ensures
        after_tag(name + seq!['>'] + rest) == rest,
        stripped(seq!['<'] + name + seq!['>'] + rest) == stripped(rest),
{
    let inside = name + seq!['>'] + rest;
    let text = seq!['<'] + name + seq!['>'] + rest;
    assert(inside =~= name + (seq!['>'] + rest));
    lemma_tag_skips_ordinary_run(name, seq!['>'] + rest, '<');
    assert((seq!['>'] + rest).drop_first() =~= rest);
    assert(text[0] == '<');
    assert(text.drop_first() =~= inside);
    assert(inside[0] == if name.len() > 0 {
        name[0]
    } else {
        '>'
    });
}

/// A tag with a quoted attribute value is removed with its two angle
/// brackets, whatever the length of the value.
pub proof fn lemma_tag_with_attribute_is_removed(
    name: Seq<char>,
    quote: char,
    value: Seq<char>,
    tail: Seq<char>,
    rest: Seq<char>,
)
    requires
        is_ordinary_run(name),
        is_ordinary_run(tail),
        is_quote(quote),
        lacks(value, quote),
        !(name.len() > 0 && is_white_space(name[0])),
    ensures
        stripped(
            seq!['<'] + name + seq![quote] + value + seq![quote] + tail + seq!['>'] + rest,
        ) == stripped(rest),
{
    let inside = name + seq![quote] + value + seq![quote] + tail + seq!['>'] + rest;
    let text = seq!['<'] + name + seq![quote] + value + seq![quote] + tail + seq!['>'] + rest;
    lemma_tag_with_attribute_is_skipped(name, quote, value, tail, rest);
    assert(text[0] == '<');
    assert(text.drop_first() =~= inside);
    assert(inside[0] == if name.len() > 0 {
        name[0]
    } else {
        quote
    });
}

} // verus!
