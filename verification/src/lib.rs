//! Removes markup from text: tags, comments, processing instructions and
//! code blocks go, as does every NUL character; all other text stays.

pub mod charset;
pub mod cursor;
pub mod extent;
pub mod grammar;
pub mod laws;
pub mod letter_case;
pub mod scan;
pub mod text;

use crate::cursor::{next_char_is_whitespace, Cursor};
use crate::grammar::stripped;
use crate::laws::{
    is_plain, is_subsequence_of, lemma_plain_text_is_kept, lemma_stripped_has_no_nul,
    lemma_stripped_is_no_longer, lemma_stripped_keeps_order,
};
use crate::scan::consume_tag;
use crate::text::characters;
use vstd::prelude::*;

verus! {

/// Strips the tags and the NUL characters from `input`.
///
/// Every input has a result: markup that is never closed is dropped up to
/// the end of the text, and nothing is ever reported as an error.
pub fn strip_tags(input: &str) -> (result: String)
    ensures
        result@ == stripped(input@),
        result@.len() <= input@.len(),
        is_subsequence_of(result@, input@),
        forall|i: int| 0 <= i < result@.len() ==> result@[i] != '\0',
        is_plain(input@) ==> result@ == input@,
{
    let text = characters(input);
    // What is stripped is never longer than the input, so the result gets
    // room for all of it at once.
    let room: usize = input.len();
    let mut result = if room <= isize::MAX as usize {
        String::with_capacity(room)
    } else {
        String::new()
    };
    let mut cursor = Cursor::new(text.as_slice());
    loop
        invariant_except_break
            result@ + stripped(cursor@) == stripped(input@),
        ensures
            result@ == stripped(input@),
        decreases cursor@.len(),
    {
        match cursor.advance() {
            None => {
                assert(result@ + stripped(cursor@) =~= result@);
                break ;
            },
            Some(c) => {
                let ghost kept = result@;
                let ghost rest = cursor@;
                if c == '\0' {
                    // Dropped, wherever it stands.
                } else if c == '<' && !cursor.is_at_end() && !next_char_is_whitespace(&cursor) {
                    consume_tag(&mut cursor);
                } else {
                    result.push(c);
                    assert(kept.push(c) + stripped(rest) =~= kept + (seq![c] + stripped(rest)));
                }
            },
        }
    }
    proof {
        lemma_stripped_is_no_longer(input@);
        lemma_stripped_keeps_order(input@);
        lemma_stripped_has_no_nul(input@);
        if is_plain(input@) {
            lemma_plain_text_is_kept(input@);
        }
    }
    result
}

} // verus!
