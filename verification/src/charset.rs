//! The two character classes that the scanners look at, and what std's
//! methods on `char` are taken to compute.

use vstd::prelude::*;

verus! {

/// Whether `c` carries Unicode's `White_Space` property.
pub open spec fn is_white_space(c: char) -> bool {
    ||| '\u{9}' <= c <= '\u{d}'
    ||| c == ' '
    ||| c == '\u{85}'
    ||| c == '\u{a0}'
    ||| c == '\u{1680}'
    ||| '\u{2000}' <= c <= '\u{200a}'
    ||| c == '\u{2028}'
    ||| c == '\u{2029}'
    ||| c == '\u{202f}'
    ||| c == '\u{205f}'
    ||| c == '\u{3000}'
}

/// `c` with the ASCII capitals `A` to `Z` replaced by `a` to `z`; every other
/// character stands for itself.
pub open spec fn ascii_lowercase(c: char) -> char {
    if 'A' <= c <= 'Z' {
        ((c as u32) + 32) as char
    } else {
        c
    }
}

/// `char::is_whitespace` of std. Trusted: it answers `true` for exactly the
/// code points with the `White_Space` property, which `is_white_space` lists.
pub assume_specification[ char::is_whitespace ](c: char) -> (white: bool)
    ensures
        white == is_white_space(c),
;

/// `char::to_ascii_lowercase` of std. Trusted: `A` to `Z` come back as `a` to
/// `z`, and any other character comes back as it is.
pub assume_specification[ char::to_ascii_lowercase ](c: &char) -> (lower: char)
    ensures
        lower == ascii_lowercase(*c),
;

} // verus!
