use strip_tags::text::characters;
use strip_tags::cursor::{next_char_is_whitespace, next_chars_lowercase_matches, Cursor};
use strip_tags::scan::{
    consume_comment, consume_html_quote, consume_parenthesis, consume_php, consume_php_quote,
    consume_tag, consume_xml,
};

/// What the cursor has not consumed yet.
fn unread(cursor: &mut Cursor<'_>) -> String {
    let mut rest = String::new();
    while let Some(c) = cursor.advance() {
        rest.push(c);
    }
    rest
}

/// What `scan` leaves of `text`.
fn left_by(scan: fn(&mut Cursor<'_>), text: &str) -> String {
    let chars = characters(text);
    let mut cursor = Cursor::new(&chars);
    scan(&mut cursor);
    unread(&mut cursor)
}

fn left_by_html_quote(text: &str, quote: char) -> String {
    let chars = characters(text);
    let mut cursor = Cursor::new(&chars);
    consume_html_quote(&mut cursor, quote);
    unread(&mut cursor)
}

fn left_by_php_quote(text: &str, quote: char) -> String {
    let chars = characters(text);
    let mut cursor = Cursor::new(&chars);
    consume_php_quote(&mut cursor, quote);
    unread(&mut cursor)
}

fn peeks_whitespace(text: &str) -> bool {
    let chars = characters(text);
    next_char_is_whitespace(&Cursor::new(&chars))
}

fn peeks(text: &str, expected: &str) -> bool {
    let chars = characters(text);
    next_chars_lowercase_matches(&Cursor::new(&chars), expected)
}

#[test]
fn characters_are_scalar_values_not_bytes() {
    assert_eq!(characters(""), Vec::<char>::new());
    assert_eq!(characters("a<é\u{1F600}\0"), vec!['a', '<', 'é', '\u{1F600}', '\0']);
}

#[test]
fn cursor_hands_out_each_character_once() {
    let chars = vec!['a', 'é', 'c'];
    let mut cursor = Cursor::new(&chars);
    assert_eq!(cursor.advance(), Some('a'));
    assert_eq!(cursor.advance(), Some('é'));
    assert_eq!(cursor.advance(), Some('c'));
    assert_eq!(cursor.advance(), None);
    assert_eq!(cursor.advance(), None);
}

#[test]
fn cursor_of_empty_text_is_at_its_end() {
    let chars: Vec<char> = Vec::new();
    let mut cursor = Cursor::new(&chars);
    assert_eq!(cursor.peek_at(0), None);
    assert_eq!(cursor.advance(), None);
}

#[test]
fn peeking_consumes_nothing() {
    let chars = vec!['a', 'b', 'c'];
    let mut cursor = Cursor::new(&chars);
    assert_eq!(cursor.peek_at(0), Some('a'));
    assert_eq!(cursor.peek_at(2), Some('c'));
    assert_eq!(cursor.peek_at(3), None);
    assert_eq!(cursor.peek_at(usize::MAX), None);
    assert_eq!(cursor.advance(), Some('a'));
    assert_eq!(cursor.peek_at(0), Some('b'));
    assert_eq!(cursor.peek_at(1), Some('c'));
    assert_eq!(cursor.peek_at(2), None);
    assert!(next_chars_lowercase_matches(&cursor, "bc"));
    assert!(!next_char_is_whitespace(&cursor));
    assert_eq!(unread(&mut cursor), "bc");
}

#[test]
fn whitespace_is_seen_without_being_consumed() {
    assert!(peeks_whitespace(" a"));
    assert!(peeks_whitespace("\ta"));
    assert!(peeks_whitespace("\n"));
    assert!(peeks_whitespace("\u{b}"));
    assert!(peeks_whitespace("\u{c}"));
    assert!(peeks_whitespace("\r"));
    assert!(peeks_whitespace("\u{85}"));
    assert!(peeks_whitespace("\u{a0}"));
    assert!(peeks_whitespace("\u{1680}"));
    assert!(peeks_whitespace("\u{2000}"));
    assert!(peeks_whitespace("\u{200a}"));
    assert!(peeks_whitespace("\u{2028}"));
    assert!(peeks_whitespace("\u{2029}"));
    assert!(peeks_whitespace("\u{202f}"));
    assert!(peeks_whitespace("\u{205f}"));
    assert!(peeks_whitespace("\u{3000}"));
    assert!(!peeks_whitespace(""));
    assert!(!peeks_whitespace("a "));
    assert!(!peeks_whitespace("\0"));
    assert!(!peeks_whitespace("\u{8}"));
    assert!(!peeks_whitespace("\u{e}"));
    assert!(!peeks_whitespace("\u{180e}"));
    assert!(!peeks_whitespace("\u{200b}"));
    assert!(!peeks_whitespace("\u{feff}"));
}

#[test]
fn lookahead_lowers_the_text_not_the_pattern() {
    assert!(peeks("xml", "xml"));
    assert!(peeks("XML", "xml"));
    assert!(peeks("xMl version", "xml"));
    assert!(peeks("-->", "--"));
    assert!(peeks("->", "->"));
    assert!(peeks("anything", ""));
    assert!(peeks("", ""));
    assert!(!peeks("xml", "XML"));
    assert!(!peeks("XML", "XML"));
    assert!(!peeks("xm", "xml"));
    assert!(!peeks("", "xml"));
    assert!(!peeks("xmk", "xml"));
    assert!(!peeks(" xml", "xml"));
    assert!(!peeks("- >", "->"));
}

#[test]
fn lookahead_counts_characters() {
    assert!(peeks("é>", "é"));
    assert!(peeks("é", "é"));
    assert!(!peeks("É", "é"));
    assert!(!peeks("e", "é"));
}

#[test]
fn html_quote_ends_at_the_next_quote() {
    assert_eq!(left_by_html_quote("abc\"def", '"'), "def");
    assert_eq!(left_by_html_quote("\"def", '"'), "def");
    assert_eq!(left_by_html_quote("a'b\"c'd", '\''), "b\"c'd");
    assert_eq!(left_by_html_quote("a\\\"b", '"'), "b");
    assert_eq!(left_by_html_quote("> <", '"'), "");
    assert_eq!(left_by_html_quote("", '"'), "");
}

#[test]
fn php_quote_skips_escaped_quotes() {
    assert_eq!(left_by_php_quote("abc\"def", '"'), "def");
    assert_eq!(left_by_php_quote("\"def", '"'), "def");
    assert_eq!(left_by_php_quote("a\\\"b\"c", '"'), "c");
    assert_eq!(left_by_php_quote("a\\'b'c", '\''), "c");
    assert_eq!(left_by_php_quote("a\\\\\"b\"c", '"'), "c");
    assert_eq!(left_by_php_quote("a'b\"c", '"'), "c");
    assert_eq!(left_by_php_quote("a\\\"b", '"'), "");
    assert_eq!(left_by_php_quote("", '\''), "");
}

#[test]
fn parenthesis_ends_at_the_matching_close() {
    assert_eq!(left_by(consume_parenthesis, ")x"), "x");
    assert_eq!(left_by(consume_parenthesis, "a)x"), "x");
    assert_eq!(left_by(consume_parenthesis, "a(b)c)d"), "d");
    assert_eq!(left_by(consume_parenthesis, "(()))x)"), "x)");
    assert_eq!(left_by(consume_parenthesis, "'(')x"), "");
    assert_eq!(left_by(consume_parenthesis, "'(')x)y"), "y");
    assert_eq!(left_by(consume_parenthesis, "a(b)c"), "");
    assert_eq!(left_by(consume_parenthesis, "((("), "");
    assert_eq!(left_by(consume_parenthesis, ""), "");
}

#[test]
fn php_ends_at_question_mark_and_angle() {
    assert_eq!(left_by(consume_php, ">x"), "x");
    assert_eq!(left_by(consume_php, " echo 1 ?>x"), "x");
    assert_eq!(left_by(consume_php, " a > b ?>x"), "x");
    assert_eq!(left_by(consume_php, " a ? >x?>y"), "y");
    assert_eq!(left_by(consume_php, " '?>' ?>x"), "x");
    assert_eq!(left_by(consume_php, " \"?>\" ?>x"), "x");
    assert_eq!(left_by(consume_php, " f(?>) ?>x"), "x");
    assert_eq!(left_by(consume_php, " f(a(b)?>)?>x"), "x");
    assert_eq!(left_by(consume_php, " \\'?>x'"), "x'");
    assert_eq!(left_by(consume_php, " '\\'?>' ?>x"), "x");
    assert_eq!(left_by(consume_php, " f()>x"), "");
    assert_eq!(left_by(consume_php, " 'a ?>x"), "");
    assert_eq!(left_by(consume_php, " (a ?>x"), "");
    assert_eq!(left_by(consume_php, " a ?"), "");
    assert_eq!(left_by(consume_php, ""), "");
}

#[test]
fn comment_ends_at_two_hyphens_and_angle() {
    assert_eq!(left_by(consume_comment, "-->x"), "x");
    assert_eq!(left_by(consume_comment, " a -->x"), "x");
    assert_eq!(left_by(consume_comment, "--->x"), "x");
    assert_eq!(left_by(consume_comment, " a - -> b -->x-->"), "x-->");
    assert_eq!(left_by(consume_comment, " '-->x"), "x");
    assert_eq!(left_by(consume_comment, " <a> -->x"), "x");
    assert_eq!(left_by(consume_comment, "->x"), "");
    assert_eq!(left_by(consume_comment, " a -- >x"), "");
    assert_eq!(left_by(consume_comment, " a --"), "");
    assert_eq!(left_by(consume_comment, ""), "");
}

#[test]
fn xml_ends_at_an_angle_not_behind_a_hyphen() {
    assert_eq!(left_by(consume_xml, ">x"), "x");
    assert_eq!(left_by(consume_xml, " version='1.0' ?>x"), "x");
    assert_eq!(left_by(consume_xml, "->x>y"), "y");
    assert_eq!(left_by(consume_xml, "-->>x"), "x");
    assert_eq!(left_by(consume_xml, " a='>'>x"), "x");
    assert_eq!(left_by(consume_xml, " a=\">\">x"), "x");
    assert_eq!(left_by(consume_xml, " <a>>x"), "x");
    assert_eq!(left_by(consume_xml, " <a-> b>x"), "x");
    assert_eq!(left_by(consume_xml, " <a b>x"), "");
    assert_eq!(left_by(consume_xml, " a='>x"), "");
    assert_eq!(left_by(consume_xml, " a ->"), "");
    assert_eq!(left_by(consume_xml, ""), "");
}

#[test]
fn tag_ends_at_the_next_angle() {
    assert_eq!(left_by(consume_tag, ">x"), "x");
    assert_eq!(left_by(consume_tag, "a>x>"), "x>");
    assert_eq!(left_by(consume_tag, "a href='>' b=\">\">x"), "x");
    assert_eq!(left_by(consume_tag, "a ->x"), "x");
    assert_eq!(left_by(consume_tag, "a?>x"), "x");
    assert_eq!(left_by(consume_tag, "a!-->x"), "x");
    assert_eq!(left_by(consume_tag, "a"), "");
    assert_eq!(left_by(consume_tag, "a b='c>x"), "");
    assert_eq!(left_by(consume_tag, ""), "");
}

#[test]
fn tag_resumes_after_a_nested_tag() {
    assert_eq!(left_by(consume_tag, "<>x>y"), "y");
    assert_eq!(left_by(consume_tag, "a<b>c>x"), "x");
    assert_eq!(left_by(consume_tag, "a<b<c>>>x"), "x");
    assert_eq!(left_by(consume_tag, "<b>?xml>x"), "x");
    assert_eq!(left_by(consume_tag, "<b>!-- >x"), "x");
    assert_eq!(left_by(consume_tag, "a<b>x"), "");
    assert_eq!(left_by(consume_tag, "a<b"), "");
}

#[test]
fn tag_hands_over_behind_its_opening_angle() {
    assert_eq!(left_by(consume_tag, "?xml version='1.0'?>x"), "x");
    assert_eq!(left_by(consume_tag, "?XmL a>x"), "x");
    assert_eq!(left_by(consume_tag, "?xml ->a>x"), "x");
    assert_eq!(left_by(consume_tag, "?xml>x"), "x");
    assert_eq!(left_by(consume_tag, "?xm>x?>y"), "y");
    assert_eq!(left_by(consume_tag, "? a ?>x"), "x");
    assert_eq!(left_by(consume_tag, "?>x"), "x");
    assert_eq!(left_by(consume_tag, "?php a > b ?>x>"), "x>");
    assert_eq!(left_by(consume_tag, "? a >x"), "");
    assert_eq!(left_by(consume_tag, "!-- a > b -->x>"), "x>");
    assert_eq!(left_by(consume_tag, "!---->x"), "x");
    assert_eq!(left_by(consume_tag, "!-- a >x"), "");
    assert_eq!(left_by(consume_tag, "!- a >x"), "x");
    assert_eq!(left_by(consume_tag, "!doctype -- >x"), "x");
}
