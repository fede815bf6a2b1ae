use connect_migrate::model::{DiffKind, FollowedBy, Recommendation, Site};
use connect_migrate::scan::{
    outline_offsets_fit, scan_definitions, scan_file, ArgumentNode, ArgumentValue, ConnectSelection, DefinitionKind,
    DefinitionNode, DirectiveNode, FieldNode,
};
use connect_migrate::sites::{
    analyze, format_site_id, hash_id, handle_connect, recommendation_counts, unparsable_selections, ScannedSelection,
    SelectionComparison,
};
use std::collections::hash_map::DefaultHasher;
use std::hash::{Hash, Hasher};

const SDL: &str = "type Query {\n  invoice: Invoice @connect(source: \"billing\", selection: \"\"\"\n    id\n    price: $$.amount\n  \"\"\")\n  other: Int\n}\n\ntype Invoice @connect(http: {GET: \"/x\"}, selection: \"status: null\") {\n  id: ID\n}\n\nscalar Json @connect(selection: \"ignored\")\n\nextend type Query {\n  more: Int @other @connect(selection: 3)\n  last: Int @connect(selection: \"a $$ b\")\n}\n";

#[test]
fn finds_connect_selections_in_walk_order() {
    let found = scan_file(SDL).expect("offsets fit");
    let summary: Vec<(String, String, usize, usize)> = found
        .iter()
        .map(|c| (c.coordinate.clone(), c.selection.clone(), c.line, c.col))
        .collect();
    assert_eq!(
        summary,
        vec![
            ("Query.invoice".to_string(), "id\nprice: $.amount".to_string(), 2, 20),
            ("Invoice".to_string(), "status: null".to_string(), 9, 14),
            ("Query.last".to_string(), "a $ b".to_string(), 17, 13),
        ]
    );
}

fn connect(coordinate: &str, selection: &str) -> ConnectSelection {
    ConnectSelection { coordinate: coordinate.to_string(), selection: selection.to_string(), line: 3, col: 5 }
}

#[test]
fn site_ids_are_eight_lowercase_hex_digits() {
    assert_eq!(format_site_id(0x1234_5678_9abc_def0), "9abcdef0");
    assert_eq!(format_site_id(0x2a), "0000002a");
    let id = hash_id("a.graphql", "T.f", "key_flipped_to_literal_null", "null", "f: null");
    assert_eq!(id.len(), 8);
    assert!(id.chars().all(|c| c.is_ascii_digit() || ('a'..='f').contains(&c)));
    assert_eq!(id, hash_id("a.graphql", "T.f", "key_flipped_to_literal_null", "null", "f: null"));
}

#[test]
fn site_id_ignores_position() {
    let kind = || vec![DiffKind::KeyFlippedToLiteralNull { source_range: Some((3, 7)), followed_by: FollowedBy::Nothing }];
    let mut a = Vec::new();
    handle_connect("f.graphql", &connect("T.f", "f: null"), &SelectionComparison::Divergent(kind()), &mut a);
    let mut moved = connect("T.f", "f: null");
    moved.line = 40;
    moved.col = 1;
    let mut b = Vec::new();
    handle_connect("f.graphql", &moved, &SelectionComparison::Divergent(kind()), &mut b);
    assert_eq!(a[0].id, b[0].id);
    assert_eq!(b[0].line, Some(40));
}

#[test]
fn cosmetic_kinds_are_dropped_and_sites_follow_diff_order() {
    let diffs = vec![
        DiffKind::SubSelectionToLitObject { source_range: Some((0, 2)) },
        DiffKind::KeyQuotedFlippedToLiteralString { text: "sold-to".to_string(), source_range: Some((8, 17)), followed_by: FollowedBy::Nothing },
        DiffKind::LegacyObjectToLitObject { source_range: None },
        DiffKind::KeyFlippedToLiteralBool { value: false, source_range: Some((25, 30)), followed_by: FollowedBy::Nothing },
        DiffKind::Other { source_range: None },
    ];
    let scanned = vec![ScannedSelection {
        file: "s.graphql".to_string(),
        connect: connect("Invoice.partner", "soldTo: \"sold-to\"\nflag: false"),
        comparison: SelectionComparison::Divergent(diffs),
    }];
    let sites = analyze(&scanned);
    let kinds: Vec<&str> = sites.iter().map(|s| s.kind.as_str()).collect();
    assert_eq!(kinds, vec!["key_quoted_flipped_to_literal_string", "key_flipped_to_literal_bool"]);
    let s = &sites[0];
    assert_eq!(s.file, "s.graphql");
    assert_eq!(s.coordinate, "Invoice.partner");
    assert_eq!(s.text, "sold-to");
    assert_eq!(s.followed_by, FollowedBy::Nothing);
    assert_eq!(s.recommendation, Recommendation::KeepV03);
    assert_eq!(s.line, Some(3));
    assert_eq!(s.col, Some(5));
    assert_eq!(s.source_range, Some((8, 17)));
    assert_eq!(s.selection, "soldTo: \"sold-to\"\nflag: false");
    assert_eq!(s.id, hash_id("s.graphql", "Invoice.partner", "key_quoted_flipped_to_literal_string", "sold-to", "soldTo: \"sold-to\"\nflag: false"));
    assert_eq!(sites[1].text, "false");
    assert_eq!(sites[1].recommendation, Recommendation::EmbraceV04);
}

#[test]
fn agreeing_or_failed_parses_report_nothing() {
    let scanned = vec![
        ScannedSelection { file: "a".to_string(), connect: connect("A.a", "x"), comparison: SelectionComparison::Identical },
        ScannedSelection { file: "b".to_string(), connect: connect("B.b", "y"), comparison: SelectionComparison::Unparsable },
        ScannedSelection { file: "d".to_string(), connect: connect("D.d", "w"), comparison: SelectionComparison::OneSided },
        ScannedSelection { file: "e".to_string(), connect: connect("E.e", "v"), comparison: SelectionComparison::Divergent(vec![DiffKind::Other { source_range: None }]) },
        ScannedSelection { file: "c".to_string(), connect: connect("C.c", "z"), comparison: SelectionComparison::Divergent(Vec::new()) },
    ];
    let sites: Vec<Site> = analyze(&scanned);
    assert!(sites.is_empty());
}

#[test]
fn sites_of_several_selections_keep_their_order() {
    let null = || vec![DiffKind::KeyFlippedToLiteralNull { source_range: None, followed_by: FollowedBy::Nothing }];
    let scanned = vec![
        ScannedSelection { file: "b.graphql".to_string(), connect: connect("B.b", "b: null"), comparison: SelectionComparison::Divergent(null()) },
        ScannedSelection { file: "a.graphql".to_string(), connect: connect("A.a", "a: null"), comparison: SelectionComparison::Divergent(null()) },
    ];
    let sites = analyze(&scanned);
    let coords: Vec<&str> = sites.iter().map(|s| s.coordinate.as_str()).collect();
    assert_eq!(coords, vec!["B.b", "A.a"]);
}

#[test]
fn site_id_is_the_low_half_of_the_default_hash_of_its_fields() {
    let fields = ["a.graphql", "T.f", "key_flipped_to_literal_null", "null", "f: null"];
    let mut hasher = DefaultHasher::new();
    for f in fields {
        f.hash(&mut hasher);
    }
    let expected = format!("{:08x}", hasher.finish() & 0xffff_ffff);
    assert_eq!(hash_id(fields[0], fields[1], fields[2], fields[3], fields[4]), expected);
    // Another text gives another identifier.
    assert_ne!(hash_id(fields[0], fields[1], fields[2], "nul", fields[4]), expected);
}

#[test]
fn recommendations_are_counted_by_kind() {
    let diffs = vec![
        DiffKind::KeyFlippedToLiteralNull { source_range: None, followed_by: FollowedBy::Nothing },
        DiffKind::KeyFlippedToLiteralNull { source_range: None, followed_by: FollowedBy::KeyAccess },
        DiffKind::KeyFieldFlippedToLiteralString { text: "name".to_string(), source_range: None, followed_by: FollowedBy::Nothing },
        DiffKind::KeyFlippedToLiteralBool { value: true, source_range: None, followed_by: FollowedBy::Nothing },
        DiffKind::Other { source_range: None },
    ];
    let sites = analyze(&[ScannedSelection {
        file: "f.graphql".to_string(),
        connect: connect("T.f", "a: null b: null.x c: name d: true"),
        comparison: SelectionComparison::Divergent(diffs),
    }]);
    assert_eq!(recommendation_counts(&sites), (1, 2, 1));
    assert_eq!(recommendation_counts(&[]), (0, 0, 0));
}

fn directive(name: &str, start: u32, args: Vec<ArgumentNode>) -> DirectiveNode {
    DirectiveNode { name: Some(name.to_string()), start, arguments: Some(args) }
}

fn argument(name: Option<&str>, value: ArgumentValue) -> ArgumentNode {
    ArgumentNode { name: name.map(|n| n.to_string()), value }
}

#[test]
fn selections_of_a_given_outline() {
    let sdl = "0123\n5678\nabcdefgh\n";
    let defs = vec![
        DefinitionNode {
            kind: DefinitionKind::InterfaceTypeExtension,
            name: Some("Node".to_string()),
            directives: Some(vec![directive(
                "connect",
                2,
                vec![
                    argument(Some("selection"), ArgumentValue::NotString),
                    argument(Some("selection"), ArgumentValue::Str("'x $$ y'".to_string())),
                ],
            )]),
            fields: Some(vec![
                FieldNode {
                    name: Some("f".to_string()),
                    directives: Some(vec![
                        directive("other", 6, vec![argument(Some("selection"), ArgumentValue::Str("\"no\"".to_string()))]),
                        directive("connect", 7, vec![argument(Some("selection"), ArgumentValue::Str("\"a\\tb\"".to_string()))]),
                    ]),
                },
                FieldNode {
                    name: None,
                    directives: Some(vec![directive("connect", 12, vec![argument(Some("selection"), ArgumentValue::Str("\"\"\"\n  z\n\"\"\"".to_string()))])]),
                },
                FieldNode {
                    name: Some("g".to_string()),
                    directives: Some(vec![
                        directive("connect", 13, vec![argument(None, ArgumentValue::Str("\"n\"".to_string()))]),
                        directive("connect", 14, vec![argument(Some("selection"), ArgumentValue::Missing)]),
                        DirectiveNode { name: Some("connect".to_string()), start: 15, arguments: None },
                    ]),
                },
            ]),
        },
        DefinitionNode {
            kind: DefinitionKind::Other,
            name: Some("Json".to_string()),
            directives: Some(vec![directive("connect", 0, vec![argument(Some("selection"), ArgumentValue::Str("\"s\"".to_string()))])]),
            fields: None,
        },
    ];
    let found = scan_definitions(sdl, &defs);
    let summary: Vec<(String, String, usize, usize)> = found
        .iter()
        .map(|c| (c.coordinate.clone(), c.selection.clone(), c.line, c.col))
        .collect();
    assert_eq!(
        summary,
        vec![
            ("Node".to_string(), "x $ y".to_string(), 1, 3),
            ("Node.f".to_string(), "a\tb".to_string(), 2, 3),
            ("Node.".to_string(), "z".to_string(), 3, 3),
        ]
    );
    assert!(outline_offsets_fit(&defs));
}

#[test]
fn selections_that_parse_under_neither_spec_are_listed_apart() {
    let scanned = vec![
        ScannedSelection { file: "a.graphql".to_string(), connect: connect("A.a", "x"), comparison: SelectionComparison::Unparsable },
        ScannedSelection { file: "b.graphql".to_string(), connect: connect("B.b", "y"), comparison: SelectionComparison::OneSided },
        ScannedSelection { file: "c.graphql".to_string(), connect: connect("C.c", "z"), comparison: SelectionComparison::Identical },
        ScannedSelection { file: "d.graphql".to_string(), connect: connect("D.d", "w"), comparison: SelectionComparison::Unparsable },
    ];
    let broken = unparsable_selections(&scanned);
    let listed: Vec<(&str, &str, usize, usize)> =
        broken.iter().map(|b| (b.file.as_str(), b.coordinate.as_str(), b.line, b.col)).collect();
    assert_eq!(listed, vec![("a.graphql", "A.a", 3, 5), ("d.graphql", "D.d", 3, 5)]);
    assert!(analyze(&scanned).is_empty());
}
