use connect_migrate::classify::{classify, is_likely_constant_literal, is_valid_graphql_identifier, looks_like_rest_field_name};
use connect_migrate::model::{DiffKind, FollowedBy, Recommendation};

fn quoted(text: &str, followed_by: FollowedBy) -> DiffKind {
    DiffKind::KeyQuotedFlippedToLiteralString {
        text: text.to_string(),
        source_range: None,
        followed_by,
    }
}

#[test]
fn identifiers() {
    assert!(is_valid_graphql_identifier("_id"));
    assert!(is_valid_graphql_identifier("camelCase9"));
    assert!(!is_valid_graphql_identifier(""));
    assert!(!is_valid_graphql_identifier("9lives"));
    assert!(!is_valid_graphql_identifier("@odata.nextLink"));
    assert!(!is_valid_graphql_identifier("sold-to"));
    assert!(!is_valid_graphql_identifier("né"));
}

#[test]
fn constants() {
    for c in ["USD", "USA", "PASSENGER", "0.00", "-", "2x", "5", "x", "_", "*", "é", "X-API-KEY", "TWELVE_BYTES"] {
        assert!(is_likely_constant_literal(c), "{c}");
    }
    assert!(!is_likely_constant_literal(""));
    assert!(!is_likely_constant_literal("sold-to"));
    assert!(!is_likely_constant_literal("userId"));
    assert!(!is_likely_constant_literal("3rdParty"));
    assert!(!is_likely_constant_literal("2y"));
    assert!(is_likely_constant_literal("10x"));
    // Twelve bytes at most: "THIRTEEN_BYTE" is one too many, and "ÉÉÉÉÉÉÉ" is
    // seven characters but fourteen bytes.
    assert!(!is_likely_constant_literal("THIRTEEN_BYTE"));
    assert!(!is_likely_constant_literal("ÉÉÉÉÉÉÉ"));
}

#[test]
fn rest_field_names() {
    assert!(looks_like_rest_field_name("refresh_token_expires_in"));
    assert!(looks_like_rest_field_name("Cntl_LockSeq"));
    assert!(looks_like_rest_field_name("userId"));
    assert!(!looks_like_rest_field_name("status"));
    assert!(!looks_like_rest_field_name("SOLD_TO"));
    assert!(!looks_like_rest_field_name("Status"));
    assert!(!looks_like_rest_field_name(""));
}

#[test]
fn quoted_strings() {
    let (rec, reason) = classify(&quoted("@odata.nextLink", FollowedBy::Nothing));
    assert_eq!(rec, Recommendation::KeepV03);
    assert_eq!(
        reason,
        "`\"@odata.nextLink\"` contains characters not valid in a GraphQL identifier, so it is almost certainly a quoted field name from a REST response."
    );
    let (rec, reason) = classify(&quoted("USD", FollowedBy::Nothing));
    assert_eq!(rec, Recommendation::EmbraceV04);
    assert_eq!(
        reason,
        "`\"USD\"` looks like a short constant; the v0.4 reading as a literal string matches the apparent intent."
    );
    for t in ["PASSENGER", "0.00", "-", "2x", "5", "x"] {
        assert_eq!(classify(&quoted(t, FollowedBy::Nothing)).0, Recommendation::EmbraceV04, "{t}");
    }
    for t in ["refresh_token_expires_in", "Cntl_LockSeq"] {
        let (rec, reason) = classify(&quoted(t, FollowedBy::Nothing));
        assert_eq!(rec, Recommendation::KeepV03);
        assert_eq!(
            reason,
            format!("`\"{t}\"` looks like a REST API field name (camelCase or snake_case), so the v0.3 field-reference reading is the intended one.")
        );
    }
    // A leading digit alone makes no constant: "3rdParty" is no identifier, so it is kept.
    assert_eq!(classify(&quoted("3rdParty", FollowedBy::Nothing)).0, Recommendation::KeepV03);
    let (rec, reason) = classify(&quoted("status", FollowedBy::Nothing));
    assert_eq!(rec, Recommendation::Ambiguous);
    assert_eq!(
        reason,
        "`\"status\"` could be either a quoted field name or an intended literal. Review against your backend."
    );
    let (rec, reason) = classify(&quoted("USD", FollowedBy::KeyAccess));
    assert_eq!(rec, Recommendation::KeepV03);
    assert_eq!(
        reason,
        "`\"USD\"` is followed by a path access — literals don't have fields, so the v0.3 field-reference reading is the intended one."
    );
}

#[test]
fn null_and_booleans() {
    let bare_null = DiffKind::KeyFlippedToLiteralNull { source_range: None, followed_by: FollowedBy::Nothing };
    let (rec, reason) = classify(&bare_null);
    assert_eq!(rec, Recommendation::EmbraceV04);
    assert_eq!(
        reason,
        "Bare `null` in value position is almost always intended as a literal null value; v0.3 returned the same thing accidentally via response normalization."
    );
    let null_path = DiffKind::KeyFlippedToLiteralNull { source_range: None, followed_by: FollowedBy::SubSelection };
    let (rec, reason) = classify(&null_path);
    assert_eq!(rec, Recommendation::KeepV03);
    assert_eq!(
        reason,
        "`null` is followed by a path access — literals have no fields, so the v0.3 field-reference reading is the intended one."
    );
    let bare_true = DiffKind::KeyFlippedToLiteralBool { value: true, source_range: None, followed_by: FollowedBy::Nothing };
    let (rec, reason) = classify(&bare_true);
    assert_eq!(rec, Recommendation::EmbraceV04);
    assert_eq!(reason, "Bare `true` in value position is almost always intended as a literal boolean.");
    let false_method = DiffKind::KeyFlippedToLiteralBool { value: false, source_range: None, followed_by: FollowedBy::Method };
    let (rec, reason) = classify(&false_method);
    assert_eq!(rec, Recommendation::KeepV03);
    assert_eq!(
        reason,
        "`false` is followed by a path access — literals have no fields, so the v0.3 field-reference reading is the intended one."
    );
}

#[test]
fn bare_field_strings_and_other_kinds() {
    let field = DiffKind::KeyFieldFlippedToLiteralString { text: "status".to_string(), source_range: None, followed_by: FollowedBy::Nothing };
    let (rec, reason) = classify(&field);
    assert_eq!(rec, Recommendation::Ambiguous);
    assert_eq!(
        reason,
        "`status` is ambiguous (bare identifier interpreted as a string under v0.4). Review against your backend."
    );
    let field_q = DiffKind::KeyFieldFlippedToLiteralString { text: "status".to_string(), source_range: None, followed_by: FollowedBy::Question };
    let (rec, reason) = classify(&field_q);
    assert_eq!(rec, Recommendation::KeepV03);
    assert_eq!(reason, "`status` is followed by a path access — literals have no fields.");
    for kind in [
        DiffKind::Other { source_range: None },
        DiffKind::SubSelectionToLitObject { source_range: None },
        DiffKind::LegacyObjectToLitObject { source_range: Some((0, 1)) },
    ] {
        let (rec, reason) = classify(&kind);
        assert_eq!(rec, Recommendation::Ambiguous);
        assert_eq!(reason, "Unclassified diff — please review manually.");
    }
}

#[test]
fn recommendation_names() {
    assert_eq!(Recommendation::KeepV03.as_str(), "keep-v0.3");
    assert_eq!(Recommendation::EmbraceV04.as_str(), "embrace-v0.4");
    assert_eq!(Recommendation::Ambiguous.as_str(), "???");
}
