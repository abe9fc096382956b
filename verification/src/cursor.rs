//! A forward-only cursor over the characters of a text, and the two
//! lookahead tests that the scanners make without consuming anything.

use crate::charset::{ascii_lowercase, is_white_space};
use vstd::prelude::*;
use vstd::slice::spec_slice_len;
use vstd::string::StrSliceExecFns;

verus! {

/// A position in a text that only ever moves forward. Its view is the part of
/// the text that has not been consumed yet.
pub struct Cursor<'a> {
    text: &'a [char],
    pos: usize,
}

impl<'a> View for Cursor<'a> {
    type V = Seq<char>;

    closed spec fn view(&self) -> Seq<char> {
        if self.pos <= self.text@.len() {
            self.text@.skip(self.pos as int)
        } else {
            Seq::empty()
        }
    }
}

impl<'a> Cursor<'a> {
    /// The position lies inside the text or at its end.
    #[verifier::type_invariant]
    spec fn in_bounds(self) -> bool {
        self.pos <= self.text@.len()
    }

    /// A cursor in front of the first character of `text`.
    pub fn new(text: &'a [char]) -> (cursor: Self)
        ensures
            cursor@ == text@,
    {
        Cursor { text, pos: 0 }
    }

    /// The unread part is never longer than a slice can be.
    pub proof fn lemma_unread_fits(&self)
        ensures
            self@.len() <= usize::MAX,
    {
        assert(self.text@.len() == spec_slice_len(self.text));
    }

    /// Consumes the next character and returns it; at the end of the text
    /// nothing is consumed and `None` comes back.
    pub fn advance(&mut self) -> (next: Option<char>)
        ensures
            match next {
                Some(c) => old(self)@.len() > 0 && c == old(self)@[0] && final(self)@ == old(
                    self,
                )@.drop_first(),
                None => old(self)@.len() == 0 && final(self)@ == old(self)@,
            },
    {
        proof {
            use_type_invariant(&*self);
        }
        if self.pos < self.text.len() {
            let c = self.text[self.pos];
            self.pos = self.pos + 1;
            Some(c)
        } else {
            None
        }
    }

    /// Whether every character has been consumed.
    pub fn is_at_end(&self) -> (at_end: bool)
        ensures
            at_end == (self@.len() == 0),
    {
        proof {
            use_type_invariant(self);
        }
        self.pos >= self.text.len()
    }

    /// The character that stands `offset` places after the cursor, without
    /// consuming anything; `None` where the text ends before it.
    pub fn peek_at(&self, offset: usize) -> (peeked: Option<char>)
        ensures
            peeked == if offset < self@.len() {
                Some(self@[offset as int])
            } else {
                None
            },
    {
        proof {
            use_type_invariant(self);
        }
        if offset < self.text.len() - self.pos {
            Some(self.text[self.pos + offset])
        } else {
            None
        }
    }
}

/// Whether `s` begins with as many characters as `expected` has, and these,
/// with ASCII capitals lowered, are the characters of `expected`.
pub open spec fn starts_with_lowercase(s: Seq<char>, expected: Seq<char>) -> bool {
    &&& expected.len() <= s.len()
    &&& forall|i: int| 0 <= i < expected.len() ==> ascii_lowercase(#[trigger] s[i]) == expected[i]
}

/// Tells whether the next character is whitespace. Nothing is consumed, and
/// at the end of the text the answer is `false`.
pub fn next_char_is_whitespace(cursor: &Cursor<'_>) -> (white: bool)
    ensures
        white == (cursor@.len() > 0 && is_white_space(cursor@[0])),
{
    match cursor.peek_at(0) {
        Some(c) => c.is_whitespace(),
        None => false,
    }
}

/// Tells whether the next characters, lowered, spell `expected`. Nothing is
/// consumed, and a text that ends too early does not match.
pub fn next_chars_lowercase_matches(cursor: &Cursor<'_>, expected: &str) -> (matches: bool)
    ensures
        matches == starts_with_lowercase(cursor@, expected@),
{
    let n: usize = expected.unicode_len();
    let mut i: usize = 0;
    while i < n
        invariant
            i <= n,
            n == expected@.len(),
            i <= cursor@.len(),
            forall|j: int| 0 <= j < i ==> ascii_lowercase(#[trigger] cursor@[j]) == expected@[j],
        decreases n - i,
    {
        match cursor.peek_at(i) {
            None => {
                return false;
            },
            Some(c) => {
                if c.to_ascii_lowercase() != expected.get_char(i) {
                    return false;
                }
            },
        }
        i = i + 1;
    }
    true
}

} // verus!
