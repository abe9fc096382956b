//! The scanners. Each is entered behind the characters that open its
//! construct, consumes the construct from the cursor and writes nothing.

use crate::cursor::{next_chars_lowercase_matches, Cursor};
use crate::grammar::{
    after_comment, after_html_quote, after_parenthesis, after_parenthesis_from, after_php,
    after_php_from, after_php_quote, after_php_quote_from, after_tag, after_tag_from, after_xml,
    after_xml_from, comment_closer, comment_opener, is_tail_of, lemma_comment_consumes,
    lemma_html_quote_consumes, lemma_parenthesis_consumes, lemma_php_consumes,
    lemma_php_quote_consumes, lemma_tag_consumes, xml_marker,
};
use vstd::prelude::*;

verus! {

/// Skips an attribute value up to and including the `quote` that closes it.
pub fn consume_html_quote(cursor: &mut Cursor<'_>, quote: char)
    ensures
        final(cursor)@ == after_html_quote(old(cursor)@, quote),
        is_tail_of(final(cursor)@, old(cursor)@),
{
    loop
        invariant_except_break
            after_html_quote(cursor@, quote) == after_html_quote(old(cursor)@, quote),
        ensures
            cursor@ == after_html_quote(old(cursor)@, quote),
        decreases cursor@.len(),
    {
        match cursor.advance() {
            None => {
                break ;
            },
            Some(c) => {
                if c == quote {
                    break ;
                }
            },
        }
    }
    proof {
        lemma_html_quote_consumes(old(cursor)@, quote);
    }
}

/// Skips a string of a code block up to and including the `quote` that
/// closes it; a `quote` behind a backslash does not close it.
pub fn consume_php_quote(cursor: &mut Cursor<'_>, quote: char)
    ensures
        final(cursor)@ == after_php_quote(old(cursor)@, quote),
        is_tail_of(final(cursor)@, old(cursor)@),
{
    let mut last_char = quote;
    loop
        invariant_except_break
            after_php_quote_from(cursor@, quote, last_char) == after_php_quote(
                old(cursor)@,
                quote,
            ),
        ensures
            cursor@ == after_php_quote(old(cursor)@, quote),
        decreases cursor@.len(),
    {
        match cursor.advance() {
            None => {
                break ;
            },
            Some(c) => {
                if c == quote && last_char != '\\' {
                    break ;
                }
                last_char = c;
            },
        }
    }
    proof {
        lemma_php_quote_consumes(old(cursor)@, quote, quote);
    }
}

/// Skips a parenthesised group, groups nested in it included, up to and
/// including the `)` that closes it.
pub fn consume_parenthesis(cursor: &mut Cursor<'_>)
    ensures
        final(cursor)@ == after_parenthesis(old(cursor)@),
        is_tail_of(final(cursor)@, old(cursor)@),
{
    proof {
        cursor.lemma_unread_fits();
    }
    // The groups that are open inside the one being skipped.
    let mut nested: usize = 0;
    loop
        invariant_except_break
            after_parenthesis_from(cursor@, (nested + 1) as nat) == after_parenthesis(
                old(cursor)@,
            ),
            nested + cursor@.len() <= old(cursor)@.len() <= usize::MAX,
        ensures
            cursor@ == after_parenthesis(old(cursor)@),
        decreases cursor@.len(),
    {
        match cursor.advance() {
            None => {
                break ;
            },
            Some(c) => {
                if c == '(' {
                    nested = nested + 1;
                } else if c == ')' {
                    if nested > 0 {
                        nested = nested - 1;
                    } else {
                        break ;
                    }
                }
            },
        }
    }
    proof {
        lemma_parenthesis_consumes(old(cursor)@, 1);
    }
}

/// Skips a code block up to and including its `?>`.
pub fn consume_php(cursor: &mut Cursor<'_>)
    ensures
        final(cursor)@ == after_php(old(cursor)@),
        is_tail_of(final(cursor)@, old(cursor)@),
{
    let mut last_char = '?';
    loop
        invariant_except_break
            after_php_from(cursor@, last_char) == after_php(old(cursor)@),
        ensures
            cursor@ == after_php(old(cursor)@),
        decreases cursor@.len(),
    {
        match cursor.advance() {
            None => {
                break ;
            },
            Some(c) => {
                if c == '(' {
                    consume_parenthesis(cursor);
                    last_char = ')';
                } else if c == '>' && last_char == '?' {
                    break ;
                } else if (c == '\'' || c == '"') && last_char != '\\' {
                    consume_php_quote(cursor, c);
                    last_char = c;
                } else {
                    last_char = c;
                }
            },
        }
    }
    proof {
        lemma_php_consumes(old(cursor)@, '?');
    }
}

/// Skips a comment up to and including its `-->`.
pub fn consume_comment(cursor: &mut Cursor<'_>)
    ensures
        final(cursor)@ == after_comment(old(cursor)@),
        is_tail_of(final(cursor)@, old(cursor)@),
{
    loop
        invariant_except_break
            after_comment(cursor@) == after_comment(old(cursor)@),
        ensures
            cursor@ == after_comment(old(cursor)@),
        decreases cursor@.len(),
    {
        let ghost before = cursor@;
        match cursor.advance() {
            None => {
                break ;
            },
            Some(c) => {
                proof {
                    reveal_strlit("->");
                    assert("->"@ =~= comment_closer());
                }
                if c == '-' && next_chars_lowercase_matches(cursor, "->") {
                    cursor.advance();
                    cursor.advance();
                    assert(cursor@ =~= before.skip(3));
                    break ;
                }
            },
        }
    }
    proof {
        lemma_comment_consumes(old(cursor)@);
    }
}

/// Skips an XML processing instruction up to and including the `>` that
/// closes it.
pub fn consume_xml(cursor: &mut Cursor<'_>)
    ensures
        final(cursor)@ == after_xml(old(cursor)@),
        is_tail_of(final(cursor)@, old(cursor)@),
    decreases old(cursor)@.len(),
{
    let mut last_char = 'l';
    loop
        invariant_except_break
            after_xml_from(cursor@, last_char) == after_xml(old(cursor)@),
            cursor@.len() <= old(cursor)@.len(),
        ensures
            cursor@ == after_xml(old(cursor)@),
        decreases cursor@.len(),
    {
        match cursor.advance() {
            None => {
                break ;
            },
            Some(c) => {
                if c == '>' && last_char != '-' {
                    break ;
                } else if c == '<' {
                    consume_tag(cursor);
                    last_char = '>';
                } else if c == '\'' || c == '"' {
                    consume_html_quote(cursor, c);
                    last_char = c;
                } else {
                    last_char = c;
                }
            },
        }
    }
    proof {
        lemma_tag_consumes(old(cursor)@, 'l');
    }
}

/// Skips a tag up to and including the `>` that closes it, with the tags,
/// the comment, the processing instruction or the code block inside it.
pub fn consume_tag(cursor: &mut Cursor<'_>)
    ensures
        final(cursor)@ == after_tag(old(cursor)@),
        is_tail_of(final(cursor)@, old(cursor)@),
    decreases old(cursor)@.len(),
{
    let mut last_char = '<';
    loop
        invariant_except_break
            after_tag_from(cursor@, last_char) == after_tag(old(cursor)@),
            cursor@.len() <= old(cursor)@.len(),
        ensures
            cursor@ == after_tag(old(cursor)@),
        decreases cursor@.len(),
    {
        match cursor.advance() {
            None => {
                break ;
            },
            Some(c) => {
                let ghost rest = cursor@;
                proof {
                    reveal_strlit("xml");
                    reveal_strlit("--");
                    assert("xml"@ =~= xml_marker());
                    assert("--"@ =~= comment_opener());
                }
                if c == '>' {
                    break ;
                } else if c == '<' {
                    consume_tag(cursor);
                    last_char = '>';
                } else if c == '\'' || c == '"' {
                    consume_html_quote(cursor, c);
                    last_char = c;
                } else if c == '?' && last_char == '<' {
                    if next_chars_lowercase_matches(cursor, "xml") {
                        cursor.advance();
                        cursor.advance();
                        cursor.advance();
                        assert(cursor@ =~= rest.skip(3));
                        consume_xml(cursor);
                    } else {
                        consume_php(cursor);
                    }
                    break ;
                } else if c == '!' && last_char == '<' && next_chars_lowercase_matches(
                    cursor,
                    "--",
                ) {
                    cursor.advance();
                    cursor.advance();
                    assert(cursor@ =~= rest.skip(2));
                    consume_comment(cursor);
                    break ;
                } else {
                    last_char = c;
                }
            },
        }
    }
    proof {
        lemma_tag_consumes(old(cursor)@, '<');
    }
}

} // verus!
