//! What each scanner leaves of the text in front of it, as functions from the
//! unread characters to the characters that are still unread afterwards.
//!
//! A construct that is never closed swallows the rest of the text: every
//! function here answers the empty sequence in that case.

use crate::charset::is_white_space;
use crate::cursor::starts_with_lowercase;
use vstd::prelude::*;

verus! {

/// `tail` is what remains of `s` after some characters were taken from its
/// front.
pub open spec fn is_tail_of(tail: Seq<char>, s: Seq<char>) -> bool {
    &&& tail.len() <= s.len()
    &&& tail =~= s.skip(s.len() - tail.len())
}

/// A tail of all but the first character of `s` is a tail of `s`.
pub proof fn lemma_tail_of_rest(tail: Seq<char>, s: Seq<char>)
    requires
        s.len() > 0,
        is_tail_of(tail, s.drop_first()),
    ensures
        is_tail_of(tail, s),
{
    assert(s.drop_first().skip(s.len() - 1 - tail.len()) =~= s.skip(s.len() - tail.len()));
}

/// A tail of a tail of `s` is a tail of `s`.
pub proof fn lemma_tail_of_tail(tail: Seq<char>, middle: Seq<char>, s: Seq<char>)
    requires
        is_tail_of(tail, middle),
        is_tail_of(middle, s),
    ensures
        is_tail_of(tail, s),
{
    assert(s.skip(s.len() - middle.len()).skip(middle.len() - tail.len()) =~= s.skip(
        s.len() - tail.len(),
    ));
}

/// The characters that follow `<?` in an XML processing instruction.
pub open spec fn xml_marker() -> Seq<char> {
    seq!['x', 'm', 'l']
}

/// The characters that follow `<!` where a comment opens.
pub open spec fn comment_opener() -> Seq<char> {
    seq!['-', '-']
}

/// The characters that follow `-` where a comment closes.
pub open spec fn comment_closer() -> Seq<char> {
    seq!['-', '>']
}

/// Whether `c` opens a quoted string.
pub open spec fn is_quote(c: char) -> bool {
    c == '\'' || c == '"'
}

/// What follows an attribute value that `quote` has opened: the text after
/// the next `quote`. A backslash has no meaning here.
pub open spec fn after_html_quote(s: Seq<char>, quote: char) -> Seq<char>
    decreases s.len(),
{
    if s.len() == 0 {
        s
    } else if s[0] == quote {
        s.drop_first()
    } else {
        after_html_quote(s.drop_first(), quote)
    }
}

/// What follows a string inside a code block, where `last` is the character
/// in front of `s`: the text after the next `quote` that no backslash
/// immediately precedes.
pub open spec fn after_php_quote_from(s: Seq<char>, quote: char, last: char) -> Seq<char>
    decreases s.len(),
{
    if s.len() == 0 {
        s
    } else if s[0] == quote && last != '\\' {
        s.drop_first()
    } else {
        after_php_quote_from(s.drop_first(), quote, s[0])
    }
}

/// What follows a string inside a code block that `quote` has just opened.
pub open spec fn after_php_quote(s: Seq<char>, quote: char) -> Seq<char> {
    after_php_quote_from(s, quote, quote)
}

/// What follows a parenthesised group of which `depth` levels are open: the
/// text after the `)` that closes the outermost of them.
pub open spec fn after_parenthesis_from(s: Seq<char>, depth: nat) -> Seq<char>
    decreases s.len(),
{
    if s.len() == 0 {
        s
    } else if s[0] == '(' {
        after_parenthesis_from(s.drop_first(), depth + 1)
    } else if s[0] == ')' && depth > 1 {
        after_parenthesis_from(s.drop_first(), (depth - 1) as nat)
    } else if s[0] == ')' {
        s.drop_first()
    } else {
        after_parenthesis_from(s.drop_first(), depth)
    }
}

/// What follows a parenthesised group whose `(` has just been consumed.
pub open spec fn after_parenthesis(s: Seq<char>) -> Seq<char> {
    after_parenthesis_from(s, 1)
}

/// What follows a comment whose `<!--` has been consumed: the text after the
/// next `-->`.
pub open spec fn after_comment(s: Seq<char>) -> Seq<char>
    decreases s.len(),
{
    if s.len() == 0 {
        s
    } else if s[0] == '-' && starts_with_lowercase(s.drop_first(), comment_closer()) {
        s.skip(3)
    } else {
        after_comment(s.drop_first())
    }
}

/// A quoted attribute value never gives text back.
pub proof fn lemma_html_quote_consumes(s: Seq<char>, quote: char)
    ensures
        is_tail_of(after_html_quote(s, quote), s),
    decreases s.len(),
{
    if s.len() > 0 && s[0] != quote {
        lemma_html_quote_consumes(s.drop_first(), quote);
        lemma_tail_of_rest(after_html_quote(s, quote), s);
    }
}

/// A string inside a code block never gives text back.
pub proof fn lemma_php_quote_consumes(s: Seq<char>, quote: char, last: char)
    ensures
        is_tail_of(after_php_quote_from(s, quote, last), s),
    decreases s.len(),
{
    if s.len() > 0 && !(s[0] == quote && last != '\\') {
        lemma_php_quote_consumes(s.drop_first(), quote, s[0]);
        lemma_tail_of_rest(after_php_quote_from(s, quote, last), s);
    }
}

/// A parenthesised group never gives text back.
pub proof fn lemma_parenthesis_consumes(s: Seq<char>, depth: nat)
    ensures
        is_tail_of(after_parenthesis_from(s, depth), s),
    decreases s.len(),
{
    if s.len() > 0 {
        if s[0] == '(' {
            lemma_parenthesis_consumes(s.drop_first(), depth + 1);
        } else if s[0] == ')' && depth > 1 {
            lemma_parenthesis_consumes(s.drop_first(), (depth - 1) as nat);
        } else if s[0] != ')' {
            lemma_parenthesis_consumes(s.drop_first(), depth);
        }
        if s[0] != ')' || depth > 1 {
            lemma_tail_of_rest(after_parenthesis_from(s, depth), s);
        }
    }
}

/// A comment never gives text back.
pub proof fn lemma_comment_consumes(s: Seq<char>)
    ensures
        is_tail_of(after_comment(s), s),
    decreases s.len(),
{
    if s.len() > 0 {
        if !(s[0] == '-' && starts_with_lowercase(s.drop_first(), comment_closer())) {
            lemma_comment_consumes(s.drop_first());
            lemma_tail_of_rest(after_comment(s), s);
        }
    }
}

/// What follows a code block, where `last` is the character in front of `s`:
/// the text after the next `?>` that stands neither in a string nor in a
/// parenthesised group.
pub open spec fn after_php_from(s: Seq<char>, last: char) -> Seq<char>
    decreases s.len(),
{
    if s.len() == 0 {
        s
    } else {
        let c = s[0];
        let rest = s.drop_first();
        if c == '(' {
            proof {
                lemma_parenthesis_consumes(rest, 1);
            }
            after_php_from(after_parenthesis(rest), ')')
        } else if c == '>' && last == '?' {
            rest
        } else if is_quote(c) && last != '\\' {
            proof {
                lemma_php_quote_consumes(rest, c, c);
            }
            after_php_from(after_php_quote(rest, c), c)
        } else {
            after_php_from(rest, c)
        }
    }
}

/// What follows a code block whose `<?` has just been consumed.
pub open spec fn after_php(s: Seq<char>) -> Seq<char> {
    after_php_from(s, '?')
}

/// A code block never gives text back.
pub proof fn lemma_php_consumes(s: Seq<char>, last: char)
    ensures
        is_tail_of(after_php_from(s, last), s),
    decreases s.len(),
{
    if s.len() > 0 {
        let c = s[0];
        let rest = s.drop_first();
        if c == '(' {
            lemma_parenthesis_consumes(rest, 1);
            lemma_php_consumes(after_parenthesis(rest), ')');
            lemma_tail_of_tail(after_php_from(s, last), after_parenthesis(rest), rest);
            lemma_tail_of_rest(after_php_from(s, last), s);
        } else if c == '>' && last == '?' {
        } else if is_quote(c) && last != '\\' {
            lemma_php_quote_consumes(rest, c, c);
            lemma_php_consumes(after_php_quote(rest, c), c);
            lemma_tail_of_tail(after_php_from(s, last), after_php_quote(rest, c), rest);
            lemma_tail_of_rest(after_php_from(s, last), s);
        } else {
            lemma_php_consumes(rest, c);
            lemma_tail_of_rest(after_php_from(s, last), s);
        }
    }
}

/// `found` where it is no longer than `bound`, else `bound`. The scanners
/// only consume, so what one of them leaves of `bound` is never longer than
/// `bound`; here that is made plain to see where a scanner resumes after a
/// tag nested in it.
pub open spec fn at_most(found: Seq<char>, bound: Seq<char>) -> Seq<char> {
    if found.len() <= bound.len() {
        found
    } else {
        bound
    }
}

/// What follows a tag, where `last` is the character in front of `s`.
///
/// A `>` closes the tag. A `<` opens a tag nested in this one, after which
/// this one goes on as if a `>` had just been read. A quote opens an
/// attribute value. Directly behind the opening `<`, a `?` hands the rest to
/// the processing instruction or the code block that it opens, and a `!`
/// followed by `--` to the comment; the tag ends where they end.
pub open spec fn after_tag_from(s: Seq<char>, last: char) -> Seq<char>
    decreases s.len(),
{
    if s.len() == 0 {
        s
    } else {
        let c = s[0];
        let rest = s.drop_first();
        if c == '>' {
            rest
        } else if c == '<' {
            after_tag_from(at_most(after_tag_from(rest, '<'), rest), '>')
        } else if is_quote(c) {
            proof {
                lemma_html_quote_consumes(rest, c);
            }
            after_tag_from(after_html_quote(rest, c), c)
        } else if c == '?' && last == '<' {
            if starts_with_lowercase(rest, xml_marker()) {
                after_xml_from(rest.skip(3), 'l')
            } else {
                after_php(rest)
            }
        } else if c == '!' && last == '<' && starts_with_lowercase(rest, comment_opener()) {
            after_comment(rest.skip(2))
        } else {
            after_tag_from(rest, c)
        }
    }
}

/// What follows an XML processing instruction, where `last` is the character
/// in front of `s`: the text after the next `>` that no `-` immediately
/// precedes and that stands neither in an attribute value nor in a nested
/// tag.
pub open spec fn after_xml_from(s: Seq<char>, last: char) -> Seq<char>
    decreases s.len(),
{
    if s.len() == 0 {
        s
    } else {
        let c = s[0];
        let rest = s.drop_first();
        if c == '>' && last != '-' {
            rest
        } else if c == '<' {
            after_xml_from(at_most(after_tag_from(rest, '<'), rest), '>')
        } else if is_quote(c) {
            proof {
                lemma_html_quote_consumes(rest, c);
            }
            after_xml_from(after_html_quote(rest, c), c)
        } else {
            after_xml_from(rest, c)
        }
    }
}

/// What follows a tag whose `<` has just been consumed.
pub open spec fn after_tag(s: Seq<char>) -> Seq<char> {
    after_tag_from(s, '<')
}

/// What follows an XML processing instruction whose `<?xml` has just been
/// consumed.
pub open spec fn after_xml(s: Seq<char>) -> Seq<char> {
    after_xml_from(s, 'l')
}

/// Neither a tag nor an XML processing instruction gives text back.
pub proof fn lemma_tag_consumes(s: Seq<char>, last: char)
    ensures
        is_tail_of(after_tag_from(s, last), s),
        is_tail_of(after_xml_from(s, last), s),
    decreases s.len(),
{
    if s.len() > 0 {
        let c = s[0];
        let rest = s.drop_first();
        if c == '<' {
            lemma_tag_consumes(rest, '<');
            let inner = after_tag_from(rest, '<');
            lemma_tag_consumes(inner, '>');
            lemma_tail_of_tail(after_tag_from(inner, '>'), inner, rest);
            lemma_tail_of_tail(after_xml_from(inner, '>'), inner, rest);
        } else if is_quote(c) {
            lemma_html_quote_consumes(rest, c);
            let inner = after_html_quote(rest, c);
            lemma_tag_consumes(inner, c);
            lemma_tail_of_tail(after_tag_from(inner, c), inner, rest);
            lemma_tail_of_tail(after_xml_from(inner, c), inner, rest);
        } else {
            lemma_tag_consumes(rest, c);
        }
        if c == '?' && last == '<' {
            if starts_with_lowercase(rest, xml_marker()) {
                let inner = rest.skip(3);
                lemma_tag_consumes(inner, 'l');
                assert(is_tail_of(inner, rest));
                lemma_tail_of_tail(after_xml_from(inner, 'l'), inner, rest);
            } else {
                lemma_php_consumes(rest, '?');
            }
        }
        if c == '!' && last == '<' && starts_with_lowercase(rest, comment_opener()) {
            let inner = rest.skip(2);
            lemma_comment_consumes(inner);
            assert(is_tail_of(inner, rest));
            lemma_tail_of_tail(after_comment(inner), inner, rest);
        }
        assert(is_tail_of(rest, rest));
        lemma_tail_of_rest(after_tag_from(s, last), s);
        lemma_tail_of_rest(after_xml_from(s, last), s);
    }
}

/// The text with its tags and its NUL characters taken out.
///
/// A `<` opens a tag where a character that is no whitespace follows it. In
/// front of whitespace, and at the very end of the text, it is text like any
/// other character.
pub open spec fn stripped(s: Seq<char>) -> Seq<char>
    decreases s.len(),
{
    if s.len() == 0 {
        s
    } else {
        let c = s[0];
        let rest = s.drop_first();
        if c == '\0' {
            stripped(rest)
        } else if c == '<' && rest.len() > 0 && !is_white_space(rest[0]) {
            proof {
                lemma_tag_consumes(rest, '<');
            }
            stripped(after_tag(rest))
        } else {
            seq![c] + stripped(rest)
        }
    }
}

} // verus!
