use connect_migrate::markdown::render_markdown;
use connect_migrate::model::{DiffKind, FollowedBy, Recommendation, Site};
use connect_migrate::rewrite::{compute_proposed_rewrite, group_into_sections};
use connect_migrate::scan::ConnectSelection;
use connect_migrate::sites::{analyze, BrokenSelection, ScannedSelection, SelectionComparison};

const FILE: &str = "subgraphs/billing/connector.graphql";
const PARTNER: &str = "soldTo: \"sold-to\"\nbillTo: \"bill-to\"";

fn scanned(coordinate: &str, selection: &str, diffs: Vec<DiffKind>) -> ScannedSelection {
    ScannedSelection {
        file: FILE.to_string(),
        connect: ConnectSelection { coordinate: coordinate.to_string(), selection: selection.to_string(), line: 42, col: 17 },
        comparison: SelectionComparison::Divergent(diffs),
    }
}

fn quoted(text: &str, start: usize, end: usize) -> DiffKind {
    DiffKind::KeyQuotedFlippedToLiteralString { text: text.to_string(), source_range: Some((start, end)), followed_by: FollowedBy::Nothing }
}

fn example_sites() -> Vec<Site> {
    analyze(&[
        scanned("Invoice.partner", PARTNER, vec![quoted("sold-to", 8, 17), quoted("bill-to", 26, 35)]),
        scanned(
            "Invoice.status",
            "status: null",
            vec![DiffKind::KeyFlippedToLiteralNull { source_range: Some((8, 12)), followed_by: FollowedBy::Nothing }],
        ),
    ])
}

#[test]
fn keep_tokens_are_fortified() {
    let sites = example_sites();
    assert_eq!(
        compute_proposed_rewrite(&sites, 0, 2),
        Some("soldTo: $.\"sold-to\"\nbillTo: $.\"bill-to\"".to_string())
    );
    // The embraced `null` stays as it is.
    assert_eq!(compute_proposed_rewrite(&sites, 2, 3), Some("status: null".to_string()));
}

#[test]
fn sections_group_consecutive_sites_of_one_selection() {
    let sites = example_sites();
    let sections = group_into_sections(&sites).expect("rewrites defined");
    let bounds: Vec<(usize, usize)> = sections.iter().map(|s| (s.start, s.end)).collect();
    assert_eq!(bounds, vec![(0, 2), (2, 3)]);
    assert_eq!(sections[1].proposed_rewrite, "status: null");
}

#[test]
fn fortifications_by_kind() {
    let sel = "a: null b: true c: name d: \"x\"";
    let kinds = vec![
        DiffKind::KeyFlippedToLiteralNull { source_range: Some((3, 7)), followed_by: FollowedBy::KeyAccess },
        DiffKind::KeyFlippedToLiteralBool { value: true, source_range: Some((11, 15)), followed_by: FollowedBy::Method },
        DiffKind::KeyFieldFlippedToLiteralString { text: "name".to_string(), source_range: Some((19, 23)), followed_by: FollowedBy::Expr },
        DiffKind::KeyQuotedFlippedToLiteralString { text: "x".to_string(), source_range: Some((27, 30)), followed_by: FollowedBy::SubSelection },
    ];
    let sites = analyze(&[scanned("T.f", sel, kinds)]);
    assert!(sites.iter().all(|s| s.recommendation == Recommendation::KeepV03));
    assert_eq!(
        compute_proposed_rewrite(&sites, 0, 4),
        Some("a: $.null b: $.true c: $.name d: $.\"x\"".to_string())
    );
}

#[test]
fn edits_outside_the_text_or_off_character_boundaries_are_skipped() {
    let sel = "k: \"é\" z";
    // Out of range, and a range that ends inside the two-byte `é` (bytes 4..6).
    let sites = analyze(&[scanned("T.f", sel, vec![quoted("q-", 50, 60), quoted("é-", 3, 5)])]);
    assert_eq!(compute_proposed_rewrite(&sites, 0, 2), Some(sel.to_string()));
}

#[test]
fn edits_apply_from_the_last_start_backwards() {
    let sel = "k: \"é\" z";
    // Sorted by start (stably): (3, 5), (3, 7). The later one is applied
    // first, then (3, 5) lands on the rewritten text.
    let sites = analyze(&[scanned("T.f", sel, vec![quoted("é-", 3, 5), quoted("é-", 3, 7)])]);
    assert_eq!(compute_proposed_rewrite(&sites, 0, 2), Some("k: $.\"é-\"\"é-\" z".to_string()));
    // An edit that starts later is applied before an earlier one.
    let sites = analyze(&[scanned("T.f", "a-b c-d", vec![quoted("a-b", 0, 3), quoted("c-d", 4, 7)])]);
    assert_eq!(compute_proposed_rewrite(&sites, 0, 2), Some("$.\"a-b\" $.\"c-d\"".to_string()));
}

#[test]
fn an_inverted_range_cannot_be_rewritten() {
    let sites = analyze(&[scanned("T.f", "abcdef", vec![quoted("c-d", 4, 2)])]);
    assert_eq!(sites[0].recommendation, Recommendation::KeepV03);
    assert_eq!(compute_proposed_rewrite(&sites, 0, 1), None);
    assert!(group_into_sections(&sites).is_none());
    assert_eq!(render_markdown(&sites, &[], ".", "1.0.0", "now"), None);
}

#[test]
fn empty_project_document() {
    let doc = render_markdown(&[], &[], "/work", "0.1.0", "2026-05-19T14:28:18Z").expect("document");
    assert_eq!(
        doc,
        "<!-- connect-migrate recommendations v1 -->\n<!-- generator: connect-migrate 0.1.0 -->\n<!-- generated-at: 2026-05-19T14:28:18Z -->\n<!-- project-root: /work -->\n\n# `connect/v0.3` → `connect/v0.4` migration recommendations\n\nNo sites in this project need migration — every `@connect(selection: …)` parses identically under v0.3 and v0.4.\n"
    );
}

fn comment(site: &Site, text: &str, recommendation: &str) -> String {
    format!(
        "<!-- connect-migrate site v1\n  id: {}\n  file: {FILE}\n  line: 42\n  col: 17\n  coordinate: {}\n  kind: {}\n  text: {text}\n  followed_by: nothing\n  recommendation: {recommendation}\n-->\n",
        site.id, site.coordinate, site.kind
    )
}

#[test]
fn worked_example_document() {
    let sites = example_sites();
    let doc = render_markdown(&sites, &[], ".", "0.X.Y", "2026-05-19T14:28:18Z").expect("document");
    let mut expected = String::new();
    expected.push_str("<!-- connect-migrate recommendations v1 -->\n<!-- generator: connect-migrate 0.X.Y -->\n<!-- generated-at: 2026-05-19T14:28:18Z -->\n<!-- project-root: . -->\n\n# `connect/v0.3` → `connect/v0.4` migration recommendations\n\n");
    expected.push_str("2 section(s) need a decision (3 divergent token(s) across 2 `@connect` selection(s)). For each section, edit the **Proposed rewrite** block as needed and check the box that reflects your decision, then run:\n\n    connect-migrate apply recommendations.md\n\nEach section has two decision options. **Exactly one must be checked.** The defaults reflect what the analyzer recommends; edit the Proposed rewrite block, flip the checkbox, or both.\n\n- **apply the rewrite above** — apply uses the contents of the Proposed rewrite block as the new selection.\n- **leave the source unchanged** — apply makes no change (accept the v0.4 literal reading).\n\n");
    expected.push_str(&format!("---\n\n## section 1 of 2 — `{FILE}` (`Invoice.partner`)\n\n"));
    expected.push_str(&comment(&sites[0], "\"sold-to\"", "keep-v0.3"));
    expected.push_str(&comment(&sites[1], "\"bill-to\"", "keep-v0.3"));
    expected.push_str("\n**Original selection:**\n\n```graphql\nsoldTo: \"sold-to\"\nbillTo: \"bill-to\"\n```\n\n");
    expected.push_str("- `\"sold-to\"` contains characters not valid in a GraphQL identifier, so it is almost certainly a quoted field name from a REST response.\n");
    expected.push_str("- `\"bill-to\"` contains characters not valid in a GraphQL identifier, so it is almost certainly a quoted field name from a REST response.\n");
    expected.push_str("\n**Proposed rewrite** (edit if needed):\n\n```graphql\nsoldTo: $.\"sold-to\"\nbillTo: $.\"bill-to\"\n```\n\n");
    expected.push_str("**Decide:**\n- [x] apply the rewrite above\n- [ ] leave the source unchanged\n\n");
    expected.push_str(&format!("---\n\n## section 2 of 2 — `{FILE}` (`Invoice.status`)\n\n"));
    expected.push_str(&comment(&sites[2], "\"null\"", "embrace-v0.4"));
    expected.push_str("\n**Original selection:**\n\n```graphql\nstatus: null\n```\n\n");
    expected.push_str("- Bare `null` in value position is almost always intended as a literal null value; v0.3 returned the same thing accidentally via response normalization.\n");
    expected.push_str("\n**Proposed rewrite** (edit if needed):\n\n```graphql\nstatus: null\n```\n\n");
    expected.push_str("**Decide:**\n- [ ] apply the rewrite above\n- [x] leave the source unchanged\n\n");
    assert_eq!(doc, expected);
}

#[test]
fn exactly_one_box_is_checked_per_section() {
    let doc = render_markdown(&example_sites(), &[], ".", "v", "t").expect("document");
    assert_eq!(doc.matches("- [x] ").count(), 2);
    assert_eq!(doc.matches("- [ ] ").count(), 2);
}

#[test]
fn sites_without_position_or_text_omit_those_fields() {
    let mut sites = analyze(&[scanned(
        "T.f",
        "a: null",
        vec![DiffKind::KeyFlippedToLiteralNull { source_range: None, followed_by: FollowedBy::Nothing }],
    )]);
    sites[0].line = None;
    sites[0].col = None;
    sites[0].text = String::new();
    let doc = render_markdown(&sites, &[], ".", "v", "t").expect("document");
    assert!(!doc.contains("  line: "));
    assert!(!doc.contains("  col: "));
    assert!(!doc.contains("  text: "));
    assert!(doc.contains("  kind: key_flipped_to_literal_null\n  followed_by: nothing\n  recommendation: embrace-v0.4\n-->\n"));
}

#[test]
fn ambiguous_tokens_are_fortified_and_applied_by_default() {
    let sel = "id: \"status\"";
    let sites = analyze(&[scanned("T.f", sel, vec![quoted("status", 4, 12)])]);
    assert_eq!(sites[0].recommendation, Recommendation::Ambiguous);
    assert_eq!(compute_proposed_rewrite(&sites, 0, 1), Some("id: $.\"status\"".to_string()));
    let doc = render_markdown(&sites, &[], ".", "v", "t").expect("document");
    assert!(doc.contains("```graphql\nid: $.\"status\"\n```\n"));
    assert!(doc.contains("- [x] apply the rewrite above\n- [ ] leave the source unchanged\n"));
}

#[test]
fn a_kept_token_without_range_still_defaults_to_apply() {
    let sites = analyze(&[scanned(
        "T.f",
        "a: null.b",
        vec![DiffKind::KeyFlippedToLiteralNull { source_range: None, followed_by: FollowedBy::KeyAccess }],
    )]);
    assert_eq!(sites[0].recommendation, Recommendation::KeepV03);
    assert_eq!(compute_proposed_rewrite(&sites, 0, 1), Some("a: null.b".to_string()));
    let doc = render_markdown(&sites, &[], ".", "v", "t").expect("document");
    assert!(doc.contains("- [x] apply the rewrite above\n- [ ] leave the source unchanged\n"));
}

#[test]
fn unparsable_selections_are_listed_at_the_top() {
    let broken = vec![BrokenSelection { file: "s.graphql".to_string(), coordinate: "Q.q".to_string(), line: 7, col: 3 }];
    let doc = render_markdown(&[], &broken, "/w", "v", "t").expect("document");
    assert_eq!(
        doc,
        "<!-- connect-migrate recommendations v1 -->\n<!-- generator: connect-migrate v -->\n<!-- generated-at: t -->\n<!-- project-root: /w -->\n\n# `connect/v0.3` → `connect/v0.4` migration recommendations\n\n## could not parse\n\nThese `@connect` selections parse under neither `connect/v0.3` nor `connect/v0.4`. They are not migration targets (they were already broken), but they are worth fixing:\n\n- `s.graphql` (`Q.q`), line 7, col 3\n\nNo sites in this project need migration — every `@connect(selection: …)` parses identically under v0.3 and v0.4.\n"
    );
    let doc = render_markdown(&example_sites(), &broken, ".", "v", "t").expect("document");
    let top = doc.find("## could not parse").expect("heading");
    assert!(top < doc.find("## section 1 of 2").expect("first section"));
}
