use strip_tags::text::characters;
use strip_tags::cursor::{next_chars_lowercase_matches, Cursor};
use strip_tags::strip_tags;

/// The code points with the `White_Space` property.
fn has_white_space_property(c: char) -> bool {
    matches!(
        c,
        '\u{9}'..='\u{d}'
            | '\u{20}'
            | '\u{85}'
            | '\u{a0}'
            | '\u{1680}'
            | '\u{2000}'..='\u{200a}'
            | '\u{2028}'
            | '\u{2029}'
            | '\u{202f}'
            | '\u{205f}'
            | '\u{3000}'
    )
}

fn samples() -> Vec<String> {
    let mut texts: Vec<String> = Vec::new();
    let pieces = [
        "", "a", "<", ">", "< ", "<b>", "</b>", "\0", "'", "\"", "?", "!", "-", "--", "->", "(",
        ")", "\\", "xml", "XML", " ", "<?", "<!--", "-->", "?>", "é", "\u{a0}", "<?xml",
    ];
    for a in pieces {
        for b in pieces {
            for c in pieces {
                texts.push(format!("{}{}{}", a, b, c));
            }
        }
    }
    texts
}

#[test]
fn result_is_never_longer_than_the_input() {
    for text in samples() {
        let stripped = strip_tags(&text);
        assert!(stripped.chars().count() <= text.chars().count(), "{:?}", text);
        assert!(stripped.len() <= text.len(), "{:?}", text);
    }
    assert_eq!(strip_tags("abc").chars().count(), 3);
    assert_eq!(strip_tags("a<b>c").chars().count(), 2);
}

#[test]
fn result_holds_no_nul() {
    for text in samples() {
        assert!(!strip_tags(&text).contains('\0'), "{:?}", text);
    }
    assert_eq!(strip_tags("\0"), "");
    assert_eq!(strip_tags("a\0b"), "ab");
    assert_eq!(strip_tags("\0<b>\0c\0</b>\0"), "c");
    assert_eq!(strip_tags("<\0>a"), "a");
    assert_eq!(strip_tags("< \0a"), "< a");
    assert_eq!(strip_tags("<\0 a"), "");
}

#[test]
fn plain_text_comes_back_unchanged() {
    for text in samples() {
        if !text.contains('<') && !text.contains('\0') {
            assert_eq!(strip_tags(&text), text);
        }
    }
    assert_eq!(strip_tags(""), "");
    assert_eq!(strip_tags("a > b ?> c --> d \"e' (f) \\ é \u{1F600}"), "a > b ?> c --> d \"e' (f) \\ é \u{1F600}");
    let once = strip_tags("1 > 0 and 'quotes' stay");
    assert_eq!(strip_tags(&once), once);
}

#[test]
fn stripping_twice_changes_nothing_more() {
    for text in samples() {
        let once = strip_tags(&text);
        assert_eq!(strip_tags(&once), once, "{:?}", text);
    }
    assert_eq!(strip_tags("< <>Hello>World"), "< Hello>World");
    assert_eq!(strip_tags("< Hello>World"), "< Hello>World");
}

#[test]
fn result_keeps_the_order_of_the_input() {
    for text in samples() {
        let stripped = strip_tags(&text);
        let mut input = text.chars();
        for kept in stripped.chars() {
            assert!(input.any(|c| c == kept), "{:?}", text);
        }
    }
}

#[test]
fn angle_before_whitespace_is_text() {
    assert_eq!(strip_tags("< ax"), "< ax");
    assert_eq!(strip_tags("<a x"), "");
    assert_eq!(strip_tags("< "), "< ");
    assert_eq!(strip_tags("a <\tb> c"), "a <\tb> c");
    assert_eq!(strip_tags("a <\nb"), "a <\nb");
    assert_eq!(strip_tags("1 <\u{a0}2"), "1 <\u{a0}2");
    assert_eq!(strip_tags("1 <\u{3000}2"), "1 <\u{3000}2");
    assert_eq!(strip_tags("1 <\u{200b}2> 3"), "1  3");
    assert_eq!(strip_tags("< <b>bold</b>"), "< bold");
}

#[test]
fn angle_at_the_end_is_text() {
    assert_eq!(strip_tags("<"), "<");
    assert_eq!(strip_tags("a<"), "a<");
    assert_eq!(strip_tags("a <"), "a <");
    assert_eq!(strip_tags("<b>a</b><"), "a<");
    assert_eq!(strip_tags("<b<"), "");
    assert_eq!(strip_tags("<\0"), "");
}

#[test]
fn whitespace_is_what_unicode_says() {
    for c in '\0'..=char::MAX {
        let text = format!("<{}", c);
        if has_white_space_property(c) {
            assert_eq!(strip_tags(&text), text, "{:?}", c);
        } else {
            assert_eq!(strip_tags(&text), "", "{:?}", c);
        }
    }
}

#[test]
fn only_ascii_capitals_are_lowered() {
    for c in '\0'..=char::MAX {
        let text = [c];
        let cursor = Cursor::new(&text);
        let lower = if c.is_ascii_uppercase() { char::from(c as u8 + 32) } else { c };
        assert!(next_chars_lowercase_matches(&cursor, &lower.to_string()), "{:?}", c);
        if lower != c {
            assert!(!next_chars_lowercase_matches(&cursor, &c.to_string()), "{:?}", c);
        }
    }
    let text = characters("ÀÉ");
    assert!(next_chars_lowercase_matches(&Cursor::new(&text), "ÀÉ"));
    assert!(!next_chars_lowercase_matches(&Cursor::new(&text), "àé"));
}

#[test]
fn xml_is_recognised_in_any_case() {
    for marker in ["xml", "XML", "Xml", "xMl", "xmL", "XMl", "xML", "XmL"] {
        let text = format!("a<?{} b='?>' ->c>d", marker);
        assert_eq!(strip_tags(&text), "ad", "{:?}", marker);
        let text = format!("a<?{} b>c", marker);
        assert_eq!(strip_tags(&text), "ac", "{:?}", marker);
    }
    assert_eq!(strip_tags("a<?xm b='?>' ->c>d"), "a");
    assert_eq!(strip_tags("a<?xm b>c"), "a");
    assert_eq!(strip_tags("a<?xm b?>c"), "ac");
    assert_eq!(strip_tags("a<?XML>b"), strip_tags("a<?xml>b"));
}

#[test]
fn case_of_letters_does_not_move_markup() {
    for text in samples() {
        let upper = text.to_ascii_uppercase();
        let lower = text.to_ascii_lowercase();
        assert_eq!(
            strip_tags(&upper).to_ascii_lowercase(),
            strip_tags(&lower),
            "{:?}",
            text
        );
        assert_eq!(strip_tags(&text).to_ascii_lowercase(), strip_tags(&lower), "{:?}", text);
    }
    assert_eq!(strip_tags("A<B HREF='X'>C</B>D<?XML E>F"), "ACDF");
    assert_eq!(strip_tags("a<b href='x'>c</b>d<?xml e>f"), "acdf");
}

#[test]
fn unclosed_markup_swallows_the_rest() {
    assert_eq!(strip_tags("a<b"), "a");
    assert_eq!(strip_tags("a<b c='d> e"), "a");
    assert_eq!(strip_tags("a<b c=\"d> e"), "a");
    assert_eq!(strip_tags("a<!-- b > c -- > d"), "a");
    assert_eq!(strip_tags("a<? b > c ? > d"), "a");
    assert_eq!(strip_tags("a<? f(b ?> c"), "a");
    assert_eq!(strip_tags("a<? 'b ?> c"), "a");
    assert_eq!(strip_tags("a<?xml b -> c"), "a");
    assert_eq!(strip_tags("a<b <c> d"), "a");
}

#[test]
fn attribute_of_any_length_is_skipped() {
    for length in [0, 1, 1023, 1024, 2048, 100_000] {
        let value = "a".repeat(length);
        assert_eq!(strip_tags(&format!("<param value=\"{}\" />", value)), "");
        assert_eq!(strip_tags(&format!("x<param value=\"{}\" />y", value)), "xy");
        assert_eq!(strip_tags(&format!("x<param value=\"{}", value)), "x");
    }
}

#[test]
fn tags_may_nest_deeply() {
    let depth = 2000;
    let text = format!("a{}b{}c", "<".repeat(depth), ">".repeat(depth));
    assert_eq!(strip_tags(&text), "ac");
    let text = format!("a{}b{}c", "<".repeat(depth), ">".repeat(depth - 1));
    assert_eq!(strip_tags(&text), "a");
}

#[test]
fn self_closing_tags_go() {
    assert_eq!(strip_tags("<br/>"), "");
    assert_eq!(strip_tags("<br />"), "");
    assert_eq!(strip_tags("<br>"), "");
    assert_eq!(strip_tags("a<br/>b<br />c<br>d"), "abcd");
}

#[test]
fn simple_tags_go_and_their_text_stays() {
    assert_eq!(strip_tags("<p>foo <b>bar</b></p>"), "foo bar");
    assert_eq!(strip_tags("<<>Hello>World"), "World");
    assert_eq!(strip_tags("<foo<>bar>"), "");
    assert_eq!(strip_tags("é<b>ü</b>\u{1F600}"), "éü\u{1F600}");
}
