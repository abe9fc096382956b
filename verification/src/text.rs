//! The text on its way in and on its way out: a `&str` is taken apart into
//! its characters, and the result is put together one character at a time.

use vstd::prelude::*;

verus! {

/// `String::push` of std. Trusted: it appends the one character to the end of
/// the string and leaves what was there in place.
pub assume_specification[ String::push ](text: &mut String, ch: char)
    ensures
        final(text)@ == old(text)@.push(ch),
;

/// `String::with_capacity` of std. Trusted: the string that comes back is
/// empty, whatever room it has. std panics where more than `isize::MAX` bytes
/// are asked for; such a capacity is not admitted here.
pub assume_specification[ String::with_capacity ](capacity: usize) -> (text: String)
    requires
        capacity <= isize::MAX,
    ensures
        text@ == Seq::<char>::empty(),
;

/// The characters of `text`, in their order.
pub fn characters(text: &str) -> (chars: Vec<char>)
    ensures
        chars@ == text@,
{
    let mut chars: Vec<char> = Vec::new();
    for c in it: text.chars()
        invariant
            chars@ == it.history(),
    {
        chars.push(c);
    }
    chars
}

} // verus!
