use connect_migrate::line_index::LineIndex;
use connect_migrate::tree::{is_schema_file, visit_order};
use connect_migrate::markdown::{quote_for_comment, write_block_lines};
use connect_migrate::text::{push_decimal, push_hex_fixed, replace_str};

#[test]
fn replacement_is_left_to_right_and_non_overlapping() {
    assert_eq!(replace_str("$$$", "$$", "$"), "$$");
    assert_eq!(replace_str("$$a$$", "$$", "$"), "$a$");
    assert_eq!(replace_str("abc", "abcd", "x"), "abc");
}

#[test]
fn numbers() {
    let mut s = String::new();
    push_decimal(&mut s, 0);
    s.push(' ');
    push_decimal(&mut s, 1207);
    s.push(' ');
    push_hex_fixed(&mut s, 0xbeef, 8);
    assert_eq!(s, "0 1207 0000beef");
}

#[test]
fn comment_fields_are_escaped() {
    assert_eq!(quote_for_comment("a\nb--c"), "\"a\\nb-\\-c\"");
    assert_eq!(quote_for_comment("sold-to"), "\"sold-to\"");
    // Every dash that follows a dash is escaped.
    assert_eq!(quote_for_comment("---"), "\"-\\-\\-\"");
    assert_eq!(quote_for_comment("a----b"), "\"a-\\-\\-\\-b\"");
}

#[test]
fn comment_field_law_on_values() {
    for text in ["x\ny\n", "--a--", "-a-b-", "\n-\n-\n", "---", "-----\n--"] {
        let q = quote_for_comment(text);
        assert!(!q.contains('\n'));
        assert!(!q.contains("--"));
    }
}

#[test]
fn block_lines_follow_str_lines() {
    let mut out = String::new();
    write_block_lines(&mut out, "a\r\nb\n");
    assert_eq!(out, "a\nb\n");
    let mut out = String::new();
    write_block_lines(&mut out, "");
    assert_eq!(out, "");
    let mut out = String::new();
    write_block_lines(&mut out, "x\n\ny");
    assert_eq!(out, "x\n\ny\n");
    // A `\r` with no `\n` after it stays, as `str::lines` keeps it.
    let mut out = String::new();
    write_block_lines(&mut out, "a\r\nb\r");
    assert_eq!(out, "a\nb\r\n");
    assert_eq!("a\r\nb\r".lines().collect::<Vec<_>>(), vec!["a", "b\r"]);
}

#[test]
fn positions_are_one_based() {
    let index = LineIndex::new("a\nbc\nd");
    assert_eq!(index.position(0), (1, 1));
    assert_eq!(index.position(1), (1, 2));
    assert_eq!(index.position(2), (2, 1));
    assert_eq!(index.position(3), (2, 2));
    assert_eq!(index.position(5), (3, 1));
    assert_eq!(index.position(40), (3, 36));
}

#[test]
fn positions_count_bytes() {
    // "é" takes two bytes: the second line starts at byte 3.
    let index = LineIndex::new("é\nx");
    assert_eq!(index.position(3), (2, 1));
    assert_eq!(index.position(2), (1, 3));
}

#[test]
fn positions_count_newlines() {
    let index = LineIndex::new("\n\n\nab\r\ncd");
    assert_eq!(index.position(2), (3, 1));
    assert_eq!(index.position(4), (4, 2));
    assert_eq!(index.position(6), (4, 4));
    assert_eq!(index.position(8), (5, 2));
}

#[test]
fn schema_files_have_the_graphql_extension() {
    for name in ["a.graphql", "a.b.graphql", "x..graphql"] {
        assert!(is_schema_file(name), "{name}");
    }
    for name in [".graphql", "graphql", "a.graphql.bak", "a.GRAPHQL", "..", "a.", "a.graphqls", ""] {
        assert!(!is_schema_file(name), "{name}");
    }
    for name in ["a.graphql", ".graphql", "..", "a.", "x..graphql", "graphql", "a.b.graphql"] {
        let std_says = std::path::Path::new(name).extension().and_then(|e| e.to_str()) == Some("graphql");
        assert_eq!(is_schema_file(name), std_says, "{name}");
    }
}

#[test]
fn entries_are_visited_in_byte_order() {
    let names = vec!["b.graphql".to_string(), "B".to_string(), "a".to_string(), "é".to_string(), "a".to_string(), "z".to_string()];
    assert_eq!(visit_order(names), vec!["B", "a", "a", "b.graphql", "z", "é"]);
    assert!(visit_order(Vec::new()).is_empty());
}
