use proto_parser::attribute::{flag, key_val, key_vals, lookup};
use proto_parser::lexer::{
    br, breaks, breaks1, char_at, find, has_class, hex_integer, integer, is_word, number, past,
    scan, tag, ByteClass,
};
use proto_parser::text::{trim, truth, utf8_text, word};

#[test]
fn word_bytes_are_letters_digits_underscore_and_dot() {
    for b in 0u8..=255 {
        let expected = b.is_ascii_alphanumeric() || b == b'_' || b == b'.';
        assert_eq!(expected, is_word(b), "byte {}", b);
    }
}

#[test]
fn classes_hold_their_bytes() {
    assert!(has_class(ByteClass::Digit, b'7'));
    assert!(!has_class(ByteClass::Digit, b'a'));
    assert!(has_class(ByteClass::HexDigit, b'a'));
    assert!(has_class(ByteClass::HexDigit, b'F'));
    assert!(!has_class(ByteClass::HexDigit, b'g'));
    assert!(has_class(ByteClass::Space, b'\t'));
    assert!(!has_class(ByteClass::Space, 0x0b));
    assert!(has_class(ByteClass::Value, b'['));
    assert!(!has_class(ByteClass::Value, b']'));
    assert!(has_class(ByteClass::Semicolon, b';'));
    assert!(has_class(ByteClass::Path, b'/'));
    assert!(!has_class(ByteClass::Path, b'"'));
}

#[test]
fn scan_takes_the_longest_run_of_digits() {
    assert_eq!(3, scan(b"123abc", 0, ByteClass::Digit));
    assert_eq!(0, scan(b"abc", 0, ByteClass::Digit));
    assert_eq!(6, scan(b"abc123", 3, ByteClass::Digit));
    assert_eq!(0, scan(b"", 0, ByteClass::Digit));
    assert_eq!(4, scan(b"12 3", 4, ByteClass::Digit));
}

#[test]
fn scan_takes_the_longest_run_of_hex_digits() {
    assert_eq!(5, scan(b"0x1fAg", 2, ByteClass::HexDigit));
    assert_eq!(1, scan(b"0x1fAg", 0, ByteClass::HexDigit));
    assert_eq!(2, scan(b"xyz", 2, ByteClass::HexDigit));
}

#[test]
fn scan_takes_the_longest_run_of_white_space() {
    assert_eq!(4, scan(b" \t\r\nx ", 0, ByteClass::Space));
    assert_eq!(0, scan(b"x ", 0, ByteClass::Space));
    assert_eq!(2, scan(b"x ", 1, ByteClass::Space));
    // vertical tab and form feed are no white space of the grammar
    assert_eq!(1, scan(b" \x0b", 0, ByteClass::Space));
    assert_eq!(0, scan(b"\x0c", 0, ByteClass::Space));
}

#[test]
fn scan_takes_names_values_and_paths() {
    assert_eq!(7, scan(b"foo.b_1 x", 0, ByteClass::Word));
    assert_eq!(0, scan(b"-foo", 0, ByteClass::Word));
    assert_eq!(4, scan(b"a, b]c", 0, ByteClass::Value));
    assert_eq!(3, scan(b"a/b\"", 0, ByteClass::Path));
    assert_eq!(3, scan(b";;;x", 0, ByteClass::Semicolon));
}

#[test]
fn tag_matches_a_literal_in_place() {
    assert_eq!(Some(7), tag(b"message A", 0, "message"));
    assert_eq!(None, tag(b"massage A", 0, "message"));
    assert_eq!(None, tag(b"mess", 0, "message"));
    assert_eq!(Some(4), tag(b"a to b", 2, "to"));
    assert_eq!(Some(0), tag(b"", 0, ""));
    assert!(char_at(b"a=b", 1, '='));
    assert!(!char_at(b"a=b", 3, '='));
    assert!(!char_at(b"a=b", 0, '='));
}

#[test]
fn find_returns_the_first_occurrence() {
    assert_eq!(Some(2), find(b"ab*/cd*/", 0, "*/"));
    assert_eq!(Some(6), find(b"ab*/cd*/", 3, "*/"));
    assert_eq!(None, find(b"ab*/cd*/", 7, "*/"));
    assert_eq!(None, find(b"abc", 0, "*/"));
    assert_eq!(Some(4), past(b"ab*/cd*/", 0, "*/"));
    assert_eq!(None, past(b"abc", 0, ";"));
}

#[test]
fn word_breaks_are_white_space_and_comments() {
    assert_eq!(Some(3), br(b" \n x", 0));
    assert_eq!(Some(4), br(b"//a\n x", 0));
    assert_eq!(Some(7), br(b"/* a */x", 0));
    assert_eq!(None, br(b"x", 0));
    assert_eq!(None, br(b"", 0));
    // a line comment needs its line feed, a block comment its end
    assert_eq!(None, br(b"// a", 0));
    assert_eq!(None, br(b"/* a", 0));
    // the first end mark closes a block comment
    assert_eq!(Some(8), br(b"/* /* */ */", 0));
    assert_eq!(14, breaks(b" //a\n/*b*/\n\t  x", 0));
    assert_eq!(0, breaks(b"x ", 0));
    assert_eq!(None, breaks1(b"x ", 0));
    assert_eq!(Some(2), breaks1(b"x y", 1));
}

#[test]
fn decimal_literals() {
    assert_eq!(Some((42, 4)), integer(b"0042;", 0));
    assert_eq!(Some((0, 1)), integer(b"0x10", 0));
    assert_eq!(Some((2147483647, 10)), integer(b"2147483647", 0));
    assert_eq!(None, integer(b"2147483648", 0));
    assert_eq!(None, integer(b"99999999999999999999999", 0));
    assert_eq!(None, integer(b"-1", 0));
    assert_eq!(None, integer(b"", 0));
    assert_eq!(Some((7, 3)), integer(b"a=7", 2));
}

#[test]
fn hexadecimal_literals() {
    assert_eq!(Some((16, 4)), hex_integer(b"0x10", 0));
    assert_eq!(Some((0xabc, 5)), hex_integer(b"0xaBc;", 0));
    assert_eq!(Some((2147483647, 10)), hex_integer(b"0x7fffffff", 0));
    assert_eq!(None, hex_integer(b"0x80000000", 0));
    assert_eq!(None, hex_integer(b"0x", 0));
    assert_eq!(None, hex_integer(b"10", 0));
    assert_eq!(Some((1, 12)), hex_integer(b"0x0000000001", 0));
}

#[test]
fn numbers_in_both_bases() {
    assert_eq!(Some(255), number(b"ff", 0, 2, 16));
    assert_eq!(Some(12), number(b"x12", 1, 3, 10));
    assert_eq!(Some(0), number(b"12", 1, 1, 10));
    assert_eq!(None, number(b"fffffffff", 0, 9, 16));
}

#[test]
fn text_is_read_as_utf8() {
    assert_eq!(Some("h\u{e9}".to_string()), utf8_text(b"xh\xc3\xa9y", 1, 4));
    assert_eq!(None, utf8_text(b"xh\xc3y", 1, 3));
    assert_eq!(None, utf8_text(b"\xff", 0, 1));
    assert_eq!(Some(String::new()), utf8_text(b"abc", 1, 1));
    assert_eq!(("foo.bar".to_string(), 8), word(b" foo.bar;", 1));
    assert_eq!((String::new(), 0), word(b"= 1", 0));
}

#[test]
fn trim_removes_white_space_at_both_ends() {
    assert_eq!("a b", trim("  a b \t\n"));
    assert_eq!("", trim("   "));
    assert_eq!("", trim(""));
    assert_eq!("x", trim("x"));
    assert_eq!("x", trim("\u{a0}\u{2003}x\u{3000}\u{b}\u{c}"));
    assert_eq!("\u{200b}x", trim(" \u{200b}x"));
}

#[test]
fn truth_values() {
    assert_eq!(Some(true), truth(&"true".to_string()));
    assert_eq!(Some(false), truth(&"false".to_string()));
    assert_eq!(None, truth(&"True".to_string()));
    assert_eq!(None, truth(&"1".to_string()));
    assert_eq!(None, truth(&"".to_string()));
}

#[test]
fn one_attribute() {
    assert_eq!(
        Some((("default".to_string(), "17".to_string()), 15)),
        key_val(b"[default = 17] ;", 0)
    );
    assert_eq!(
        Some((("a".to_string(), "1, b = 2".to_string()), 16)),
        key_val(b"[ a=  1, b = 2 ]", 0)
    );
    assert_eq!(
        Some((("k".to_string(), "[x".to_string()), 8)),
        key_val(b"[k = [x]]", 0)
    );
    assert_eq!(None, key_val(b"[a=]", 0));
    assert_eq!(None, key_val(b"[a=1", 0));
    assert_eq!(None, key_val(b"[a 1]", 0));
    assert_eq!(None, key_val(b"a=1]", 0));
    assert_eq!(None, key_val(b"[a=\xff]", 0));
    // a value of white space alone is taken, and nothing is left of it
    assert_eq!(
        Some((("a".to_string(), String::new()), 7)),
        key_val(b"[a=\x0b\x0c ]", 0)
    );
}

#[test]
fn attributes_in_a_row() {
    let (attrs, end) = key_vals(b"[a=1] [b = x] [a=2];", 0);
    assert_eq!(19, end);
    assert_eq!(
        vec![
            ("a".to_string(), "1".to_string()),
            ("b".to_string(), "x".to_string()),
            ("a".to_string(), "2".to_string()),
        ],
        attrs
    );
    assert_eq!(Some("1".to_string()), lookup(&attrs, "a"));
    assert_eq!(Some("x".to_string()), lookup(&attrs, "b"));
    assert_eq!(None, lookup(&attrs, "c"));
    assert_eq!(None, flag(&attrs, "a"));
    assert_eq!(Some(false), flag(&attrs, "c"));
    let (none, end) = key_vals(b";", 0);
    assert!(none.is_empty());
    assert_eq!(0, end);
}

#[test]
fn flags_read_the_first_attribute_of_their_name() {
    let (attrs, _) = key_vals(b"[packed=true][packed=no][deprecated = false]", 0);
    assert_eq!(Some(true), flag(&attrs, "packed"));
    assert_eq!(Some(false), flag(&attrs, "deprecated"));
}
