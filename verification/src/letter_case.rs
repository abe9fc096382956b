//! Upper and lower case of the ASCII letters never decide what is markup:
//! two texts that differ in nothing else have the same markup in the same
//! places.

use crate::charset::{ascii_lowercase, is_white_space};
use crate::cursor::starts_with_lowercase;
use crate::grammar::{
    after_comment, after_html_quote, after_parenthesis, after_parenthesis_from, after_php_from,
    after_php_quote, after_php_quote_from, after_tag, after_tag_from, after_xml, after_xml_from,
    comment_closer, comment_opener, is_quote, lemma_html_quote_consumes,
    lemma_parenthesis_consumes, lemma_php_quote_consumes, lemma_tag_consumes, stripped,
    xml_marker,
};
use vstd::prelude::*;

verus! {

/// One of the letters `A` to `Z` and `a` to `z`.
pub open spec fn is_ascii_letter(c: char) -> bool {
    'A' <= c <= 'Z' || 'a' <= c <= 'z'
}

/// `a` and `b` are the same character, or the same ASCII letter in either
/// case.
pub open spec fn same_letter(a: char, b: char) -> bool {
    ascii_lowercase(a) == ascii_lowercase(b)
}

/// `s` and `t` are equally long and differ at most in the case of ASCII
/// letters.
pub open spec fn same_letters(s: Seq<char>, t: Seq<char>) -> bool {
    &&& s.len() == t.len()
    &&& forall|i: int| 0 <= i < s.len() ==> same_letter(#[trigger] s[i], t[i])
}

/// Two characters that differ at most in case are equal, or both are
/// letters: so neither or both are a given character that is no letter.
pub proof fn lemma_same_letter(a: char, b: char)
    requires
        same_letter(a, b),
    ensures
        a == b || (is_ascii_letter(a) && is_ascii_letter(b)),
        is_white_space(a) == is_white_space(b),
        is_quote(a) == is_quote(b),
{
}

/// Texts that differ at most in case still do so once the same number of
/// characters is taken from the front of each.
pub proof fn lemma_skip_same_letters(s: Seq<char>, t: Seq<char>, n: int)
    requires
        same_letters(s, t),
        0 <= n <= s.len(),
    ensures
        same_letters(s.skip(n), t.skip(n)),
{
    assert forall|i: int| 0 <= i < s.skip(n).len() implies same_letter(
        #[trigger] s.skip(n)[i],
        t.skip(n)[i],
    ) by {
        assert(same_letter(s[i + n], t[i + n]));
    }
}

/// Texts that differ at most in case begin with the same lowered characters.
pub proof fn lemma_lookahead_ignores_case(s: Seq<char>, t: Seq<char>, expected: Seq<char>)
    requires
        same_letters(s, t),
    ensures
        starts_with_lowercase(s, expected) == starts_with_lowercase(t, expected),
{
    if expected.len() <= s.len() {
        if starts_with_lowercase(s, expected) {
            assert forall|i: int| 0 <= i < expected.len() implies ascii_lowercase(
                #[trigger] t[i],
            ) == expected[i] by {
                assert(same_letter(s[i], t[i]));
            }
        }
        if starts_with_lowercase(t, expected) {
            assert forall|i: int| 0 <= i < expected.len() implies ascii_lowercase(
                #[trigger] s[i],
            ) == expected[i] by {
                assert(same_letter(s[i], t[i]));
            }
        }
    }
}

/// An attribute value ends at the same place whatever the case of its
/// letters.
pub proof fn lemma_html_quote_ignores_case(s: Seq<char>, t: Seq<char>, quote: char)
    requires
        same_letters(s, t),
        !is_ascii_letter(quote),
    ensures
        same_letters(after_html_quote(s, quote), after_html_quote(t, quote)),
    decreases s.len(),
{
    if s.len() > 0 {
        assert(same_letter(s[0], t[0]));
        lemma_same_letter(s[0], t[0]);
        lemma_skip_same_letters(s, t, 1);
        if s[0] != quote {
            lemma_html_quote_ignores_case(s.drop_first(), t.drop_first(), quote);
        }
    }
}

/// A string of a code block ends at the same place whatever the case of its
/// letters.
pub proof fn lemma_php_quote_ignores_case(
    s: Seq<char>,
    t: Seq<char>,
    quote: char,
    last_s: char,
    last_t: char,
)
    requires
        same_letters(s, t),
        same_letter(last_s, last_t),
        !is_ascii_letter(quote),
    ensures
        same_letters(
            after_php_quote_from(s, quote, last_s),
            after_php_quote_from(t, quote, last_t),
        ),
    decreases s.len(),
{
    if s.len() > 0 {
        assert(same_letter(s[0], t[0]));
        lemma_same_letter(s[0], t[0]);
        lemma_same_letter(last_s, last_t);
        lemma_skip_same_letters(s, t, 1);
        if !(s[0] == quote && last_s != '\\') {
            lemma_php_quote_ignores_case(s.drop_first(), t.drop_first(), quote, s[0], t[0]);
        }
    }
}

/// A parenthesised group ends at the same place whatever the case of its
/// letters.
pub proof fn lemma_parenthesis_ignores_case(s: Seq<char>, t: Seq<char>, depth: nat)
    requires
        same_letters(s, t),
    ensures
        same_letters(after_parenthesis_from(s, depth), after_parenthesis_from(t, depth)),
    decreases s.len(),
{
    if s.len() > 0 {
        assert(same_letter(s[0], t[0]));
        lemma_same_letter(s[0], t[0]);
        lemma_skip_same_letters(s, t, 1);
        if s[0] == '(' {
            lemma_parenthesis_ignores_case(s.drop_first(), t.drop_first(), depth + 1);
        } else if s[0] == ')' && depth > 1 {
            lemma_parenthesis_ignores_case(s.drop_first(), t.drop_first(), (depth - 1) as nat);
        } else if s[0] != ')' {
            lemma_parenthesis_ignores_case(s.drop_first(), t.drop_first(), depth);
        }
    }
}

/// A comment ends at the same place whatever the case of its letters.
pub proof fn lemma_comment_ignores_case(s: Seq<char>, t: Seq<char>)
    requires
        same_letters(s, t),
    ensures
        same_letters(after_comment(s), after_comment(t)),
    decreases s.len(),
{
    if s.len() > 0 {
        assert(same_letter(s[0], t[0]));
        lemma_same_letter(s[0], t[0]);
        lemma_skip_same_letters(s, t, 1);
        lemma_lookahead_ignores_case(s.drop_first(), t.drop_first(), comment_closer());
        if s[0] == '-' && starts_with_lowercase(s.drop_first(), comment_closer()) {
            lemma_skip_same_letters(s, t, 3);
        } else {
            lemma_comment_ignores_case(s.drop_first(), t.drop_first());
        }
    }
}

/// A code block ends at the same place whatever the case of its letters.
pub proof fn lemma_php_ignores_case(s: Seq<char>, t: Seq<char>, last_s: char, last_t: char)
    requires
        same_letters(s, t),
        same_letter(last_s, last_t),
    ensures
        same_letters(after_php_from(s, last_s), after_php_from(t, last_t)),
    decreases s.len(),
{
    if s.len() > 0 {
        let c = s[0];
        let rest_s = s.drop_first();
        let rest_t = t.drop_first();
        assert(same_letter(s[0], t[0]));
        lemma_same_letter(s[0], t[0]);
        lemma_same_letter(last_s, last_t);
        lemma_skip_same_letters(s, t, 1);
        if c == '(' {
            lemma_parenthesis_ignores_case(rest_s, rest_t, 1);
            lemma_parenthesis_consumes(rest_s, 1);
            lemma_php_ignores_case(after_parenthesis(rest_s), after_parenthesis(rest_t), ')', ')');
        } else if c == '>' && last_s == '?' {
        } else if is_quote(c) && last_s != '\\' {
            lemma_php_quote_ignores_case(rest_s, rest_t, c, c, c);
            lemma_php_quote_consumes(rest_s, c, c);
            lemma_php_ignores_case(after_php_quote(rest_s, c), after_php_quote(rest_t, c), c, c);
        } else {
            lemma_php_ignores_case(rest_s, rest_t, s[0], t[0]);
        }
    }
}

/// A tag, and an XML processing instruction, end at the same place whatever
/// the case of the letters in them: `<?XML` opens what `<?xml` opens.
pub proof fn lemma_tag_ignores_case(s: Seq<char>, t: Seq<char>, last_s: char, last_t: char)
    requires
        same_letters(s, t),
        same_letter(last_s, last_t),
    ensures
        same_letters(after_tag_from(s, last_s), after_tag_from(t, last_t)),
        same_letters(after_xml_from(s, last_s), after_xml_from(t, last_t)),
    decreases s.len(),
{
    if s.len() > 0 {
        let c = s[0];
        let rest_s = s.drop_first();
        let rest_t = t.drop_first();
        assert(same_letter(s[0], t[0]));
        lemma_same_letter(s[0], t[0]);
        lemma_same_letter(last_s, last_t);
        lemma_skip_same_letters(s, t, 1);
        if c == '<' {
            lemma_tag_ignores_case(rest_s, rest_t, '<', '<');
            lemma_tag_consumes(rest_s, '<');
            lemma_tag_consumes(rest_t, '<');
            lemma_tag_ignores_case(
                after_tag_from(rest_s, '<'),
                after_tag_from(rest_t, '<'),
                '>',
                '>',
            );
        } else if is_quote(c) {
            lemma_html_quote_ignores_case(rest_s, rest_t, c);
            lemma_html_quote_consumes(rest_s, c);
            lemma_tag_ignores_case(
                after_html_quote(rest_s, c),
                after_html_quote(rest_t, c),
                c,
                c,
            );
        } else {
            lemma_tag_ignores_case(rest_s, rest_t, s[0], t[0]);
        }
        if c == '?' && last_s == '<' {
            lemma_lookahead_ignores_case(rest_s, rest_t, xml_marker());
            if starts_with_lowercase(rest_s, xml_marker()) {
                lemma_skip_same_letters(rest_s, rest_t, 3);
                lemma_tag_ignores_case(rest_s.skip(3), rest_t.skip(3), 'l', 'l');
            } else {
                lemma_php_ignores_case(rest_s, rest_t, '?', '?');
            }
        }
        if c == '!' && last_s == '<' {
            lemma_lookahead_ignores_case(rest_s, rest_t, comment_opener());
            if starts_with_lowercase(rest_s, comment_opener()) {
                lemma_skip_same_letters(rest_s, rest_t, 2);
                lemma_comment_ignores_case(rest_s.skip(2), rest_t.skip(2));
            }
        }
    }
}

/// Two texts that differ at most in the case of ASCII letters are stripped
/// to texts that differ at most in the case of ASCII letters.
pub proof fn lemma_strip_ignores_case(s: Seq<char>, t: Seq<char>)
    requires
        same_letters(s, t),
    ensures
        same_letters(stripped(s), stripped(t)),
    decreases s.len(),
{
    if s.len() > 0 {
        let c = s[0];
        let rest_s = s.drop_first();
        let rest_t = t.drop_first();
        assert(same_letter(s[0], t[0]));
        lemma_same_letter(s[0], t[0]);
        lemma_skip_same_letters(s, t, 1);
        if rest_s.len() > 0 {
            assert(same_letter(rest_s[0], rest_t[0]));
            lemma_same_letter(rest_s[0], rest_t[0]);
        }
        if c == '\0' {
            lemma_strip_ignores_case(rest_s, rest_t);
        } else if c == '<' && rest_s.len() > 0 && !is_white_space(rest_s[0]) {
            lemma_tag_ignores_case(rest_s, rest_t, '<', '<');
            lemma_tag_consumes(rest_s, '<');
            lemma_strip_ignores_case(after_tag(rest_s), after_tag(rest_t));
        } else {
            lemma_strip_ignores_case(rest_s, rest_t);
            let out_s = stripped(s);
            let out_t = stripped(t);
            assert forall|i: int| 0 <= i < out_s.len() implies same_letter(
                #[trigger] out_s[i],
                out_t[i],
            ) by {
                if i > 0 {
                    assert(out_s[i] == stripped(rest_s)[i - 1]);
                    assert(out_t[i] == stripped(rest_t)[i - 1]);
                }
            }
        }
    }
}

/// Behind `<?`, the three letters of `xml` open a processing instruction in
/// whatever case they are written: what follows the tag is what follows the
/// processing instruction, the same for any two spellings.
pub proof fn lemma_xml_marker_in_any_case(first: Seq<char>, second: Seq<char>, rest: Seq<char>)
    requires
        first.len() == 3,
        second.len() == 3,
        starts_with_lowercase(first, xml_marker()),
        starts_with_lowercase(second, xml_marker()),
    ensures
        after_tag(seq!['?'] + first + rest) == after_xml(rest),
        after_tag(seq!['?'] + second + rest) == after_xml(rest),
        stripped(seq!['<', '?'] + first + rest) == stripped(after_xml(rest)),
        stripped(seq!['<', '?'] + second + rest) == stripped(after_xml(rest)),
{
    lemma_xml_marker_opens_instruction(first, rest);
    lemma_xml_marker_opens_instruction(second, rest);
}

/// Behind `<?`, a marker that spells `xml` hands the text after it to the
/// scanner of processing instructions.
proof fn lemma_xml_marker_opens_instruction(marker: Seq<char>, rest: Seq<char>)
    requires
        marker.len() == 3,
        starts_with_lowercase(marker, xml_marker()),
    ensures
        after_tag(seq!['?'] + marker + rest) == after_xml(rest),
        stripped(seq!['<', '?'] + marker + rest) == stripped(after_xml(rest)),
{
    let tag = seq!['?'] + marker + rest;
    let behind = tag.drop_first();
    assert(behind =~= marker + rest);
    assert(starts_with_lowercase(behind, xml_marker())) by {
        assert forall|i: int| 0 <= i < 3 implies ascii_lowercase(#[trigger] behind[i])
            == xml_marker()[i] by {
            assert(behind[i] == marker[i]);
        }
    }
    assert(behind.skip(3) =~= rest);
    let text = seq!['<', '?'] + marker + rest;
    assert(text.drop_first() =~= tag);
    assert(text[0] == '<');
    assert(tag[0] == '?');
    assert(!is_white_space('?'));
}

} // verus!
