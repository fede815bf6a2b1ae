use connect_migrate::decode::{decode_graphql_string, strip_pair};
use connect_migrate::line_index::LineIndex;

#[test]
fn decodes_single_line_escapes() {
    assert_eq!(decode_graphql_string("\"a\\nb\""), "a\nb");
    assert_eq!(decode_graphql_string("\"q\\\"x\\\\y\\/z\""), "q\"x\\y/z");
    assert_eq!(decode_graphql_string("\"\\t\\r\\b\\f\""), "\t\r\u{8}\u{c}");
}

#[test]
fn decodes_unicode_escapes() {
    assert_eq!(decode_graphql_string("\"\\u0041B\""), "AB");
    assert_eq!(decode_graphql_string("\"\\u{1F600}!\""), "\u{1F600}!");
    assert_eq!(decode_graphql_string("\"\\u{+41}\""), "A");
    // A surrogate is no character: nothing is produced.
    assert_eq!(decode_graphql_string("\"x\\uD800y\""), "xy");
    // Not a number: nothing is produced, the text is consumed.
    assert_eq!(decode_graphql_string("\"\\uzzzzq\""), "q");
    // Fewer than four characters left.
    assert_eq!(decode_graphql_string("\"\\u41\""), "A");
    // An unclosed brace takes the rest.
    assert_eq!(decode_graphql_string("\"\\u{41\""), "A");
}

#[test]
fn keeps_unknown_escapes_and_trailing_backslash() {
    assert_eq!(decode_graphql_string("\"a\\qb\""), "a\\qb");
    assert_eq!(decode_graphql_string("\"end\\\""), "end\\");
}

#[test]
fn single_quoted_strings_are_decoded_too() {
    assert_eq!(decode_graphql_string("'it\\'s'"), "it's");
}

#[test]
fn decodes_block_strings() {
    let src = "\"\"\"\n    id\n    name: $.\"full name\"\n      nested\n\"\"\"";
    assert_eq!(decode_graphql_string(src), "id\nname: $.\"full name\"\n  nested");
}

#[test]
fn block_string_keeps_first_line_and_unescapes_triple_quotes() {
    let src = "\"\"\"first\n   second \\\"\"\" third\n\n   \"\"\"";
    assert_eq!(decode_graphql_string(src), "first\nsecond \"\"\" third");
    assert_eq!(decode_graphql_string("'''\n  a\n'''"), "a");
}

#[test]
fn block_string_of_blank_lines_is_empty() {
    assert_eq!(decode_graphql_string("\"\"\"\n   \n \t \n\"\"\""), "");
}

#[test]
fn other_text_is_returned_unchanged() {
    assert_eq!(decode_graphql_string("abc"), "abc");
    assert_eq!(decode_graphql_string("\""), "\"");
    assert_eq!(decode_graphql_string(""), "");
}

#[test]
fn unicode_blank_lines_are_trimmed_from_block_strings() {
    // U+3000 and U+2028 are white space; U+200B is not.
    assert_eq!(decode_graphql_string("\"\"\"\n\u{3000}\u{2028}\nx\n\u{85}\n\"\"\""), "x");
    assert_eq!(decode_graphql_string("\"\"\"\n\u{200B}\nx\n\"\"\""), "\u{200B}\nx");
}

#[test]
fn blank_lines_are_those_std_calls_white_space() {
    let high = [0xFEFFu32, 0xFFFD, 0x1_0000, 0x10_FFFF, 0xE000];
    for n in (0u32..0x3100).chain(high) {
        let Some(c) = char::from_u32(n) else { continue };
        if c == '\n' {
            continue;
        }
        let decoded = decode_graphql_string(&format!("\"\"\"\n{c}\nx\n\"\"\""));
        let expected = if c.is_whitespace() { "x".to_string() } else { format!("{c}\nx") };
        assert_eq!(decoded, expected, "U+{n:04X}");
    }
}

#[test]
fn inserted_lines_shift_positions() {
    let before = "type Q {\n  f: Int @connect\n}\n";
    let after = "type Q {\n\n\n\n  f: Int @connect\n}\n";
    let (at_before, at_after) = (before.find('@').unwrap(), after.find('@').unwrap());
    assert_eq!(at_after, at_before + 3);
    let (l1, c1) = LineIndex::new(before).position(at_before);
    let (l2, c2) = LineIndex::new(after).position(at_after);
    assert_eq!((l2, c2), (l1 + 3, c1));
}

#[test]
fn strip_pair_removes_a_delimiter_from_both_ends() {
    let chars = |s: &str| s.chars().collect::<Vec<char>>();
    let q3 = chars("\"\"\"");
    assert_eq!(strip_pair(&chars("\"\"\"ab\"\"\""), &q3), Some((3, 5)));
    assert_eq!(strip_pair(&chars("\"\"\"\"\"\""), &q3), Some((3, 3)));
    // Overlapping delimiters are no pair.
    assert_eq!(strip_pair(&chars("\"\"\"\"\""), &q3), None);
    assert_eq!(strip_pair(&chars("'x\""), &chars("'")), None);
    assert_eq!(strip_pair(&chars("'x'"), &chars("'")), Some((1, 2)));
}
