//! The triage heuristics: which reading of a divergent token the analyzer
//! recommends, and the one-line reason it gives.
use vstd::prelude::*;
use vstd::utf8::encode_utf8;
use crate::model::{DiffKind, DiffKindView, FollowedBy, Recommendation};
use crate::text::{
    chars_of, is_ascii_alnum, is_ascii_alpha, is_ascii_digit, is_ascii_lower, is_ascii_upper,
};

verus! {

/// A bare GraphQL name: a letter or `_`, then letters, digits and `_`.
pub open spec fn is_graphql_identifier(s: Seq<char>) -> bool {
    &&& s.len() > 0
    &&& (is_ascii_alpha(s[0]) || s[0] == '_')
    &&& forall|i: int| 1 <= i < s.len() ==> (is_ascii_alnum(#[trigger] s[i]) || s[i] == '_')
}

pub open spec fn is_upper_or_punct(c: char) -> bool {
    is_ascii_upper(c) || is_ascii_digit(c) || c == '_' || c == '-'
}

pub open spec fn is_numeric_ish(c: char) -> bool {
    is_ascii_digit(c) || c == '.' || c == '-' || c == ','
}

/// The longest constant, in bytes of UTF-8.
pub open spec fn constant_limit() -> nat {
    12
}

/// A multiplier such as `"2x"` or `"10x"`: digits, then one `x`.
pub open spec fn is_multiplier(s: Seq<char>) -> bool {
    &&& s.len() >= 2
    &&& s.last() == 'x'
    &&& forall|i: int| 0 <= i < s.len() - 1 ==> is_ascii_digit(#[trigger] s[i])
}

/// A short constant or placeholder: at most twelve bytes of UTF-8, and
/// either an uppercase constant (all uppercase/digits/`_`/`-`, like `"USD"`
/// or `"PASSENGER"`), a currency-like or formatting token (all
/// digits/`.`/`-`/`,`, like `"0.00"` or `"-"`, or a multiplier like
/// `"2x"`), or a single character.
pub open spec fn is_constant_like(s: Seq<char>) -> bool {
    let bytes = encode_utf8(s).len();
    if s.len() == 0 || bytes > constant_limit() {
        false
    } else {
        ||| forall|i: int| 0 <= i < s.len() ==> is_upper_or_punct(#[trigger] s[i])
        ||| forall|i: int| 0 <= i < s.len() ==> is_numeric_ish(#[trigger] s[i])
        ||| is_multiplier(s)
        ||| s.len() == 1
    }
}

/// A name in the style of a REST API field: snake_case (a lowercase letter
/// and an underscore, like `"refresh_token_expires_in"` or `"Cntl_LockSeq"`)
/// or camelCase (a lowercase letter right before an uppercase one, like
/// `"userId"`).
pub open spec fn is_rest_field_name(s: Seq<char>) -> bool {
    ||| (exists|i: int| 0 <= i < s.len() && is_ascii_lower(#[trigger] s[i])) && (exists|i: int|
        0 <= i < s.len() && #[trigger] s[i] == '_')
    ||| exists|i: int| 0 <= i < s.len() - 1 && is_ascii_lower(#[trigger] s[i]) && is_ascii_upper(s[i + 1])
}

/// The recommendation for a divergence and its one-line reason.
pub open spec fn classification(kind: DiffKindView) -> (Recommendation, Seq<char>) {
    match kind {
        DiffKindView::KeyQuotedFlippedToLiteralString { text, followed_by, .. } => {
            if followed_by != FollowedBy::Nothing {
                (
                    Recommendation::KeepV03,
                    "`\""@ + text
                        + "\"` is followed by a path access — literals don't have fields, so the v0.3 field-reference reading is the intended one."@,
                )
            } else if is_constant_like(text) {
                (
                    Recommendation::EmbraceV04,
                    "`\""@ + text
                        + "\"` looks like a short constant; the v0.4 reading as a literal string matches the apparent intent."@,
                )
            } else if !is_graphql_identifier(text) {
                (
                    Recommendation::KeepV03,
                    "`\""@ + text
                        + "\"` contains characters not valid in a GraphQL identifier, so it is almost certainly a quoted field name from a REST response."@,
                )
            } else if is_rest_field_name(text) {
                (
                    Recommendation::KeepV03,
                    "`\""@ + text
                        + "\"` looks like a REST API field name (camelCase or snake_case), so the v0.3 field-reference reading is the intended one."@,
                )
            } else {
                (
                    Recommendation::Ambiguous,
                    "`\""@ + text
                        + "\"` could be either a quoted field name or an intended literal. Review against your backend."@,
                )
            }
        },
        DiffKindView::KeyFlippedToLiteralNull { followed_by, .. } => {
            if followed_by != FollowedBy::Nothing {
                (
                    Recommendation::KeepV03,
                    "`null` is followed by a path access — literals have no fields, so the v0.3 field-reference reading is the intended one."@,
                )
            } else {
                (
                    Recommendation::EmbraceV04,
                    "Bare `null` in value position is almost always intended as a literal null value; v0.3 returned the same thing accidentally via response normalization."@,
                )
            }
        },
        DiffKindView::KeyFlippedToLiteralBool { value, followed_by, .. } => {
            let lit = if value {
                "true"@
            } else {
                "false"@
            };
            if followed_by != FollowedBy::Nothing {
                (
                    Recommendation::KeepV03,
                    "`"@ + lit
                        + "` is followed by a path access — literals have no fields, so the v0.3 field-reference reading is the intended one."@,
                )
            } else {
                (
                    Recommendation::EmbraceV04,
                    "Bare `"@ + lit
                        + "` in value position is almost always intended as a literal boolean."@,
                )
            }
        },
        DiffKindView::KeyFieldFlippedToLiteralString { text, followed_by, .. } => {
            if followed_by != FollowedBy::Nothing {
                (
                    Recommendation::KeepV03,
                    "`"@ + text + "` is followed by a path access — literals have no fields."@,
                )
            } else {
                (
                    Recommendation::Ambiguous,
                    "`"@ + text
                        + "` is ambiguous (bare identifier interpreted as a string under v0.4). Review against your backend."@,
                )
            }
        },
        _ => (Recommendation::Ambiguous, "Unclassified diff — please review manually."@),
    }
}

/// Whether `s` is a bare GraphQL name.
pub fn is_valid_graphql_identifier(s: &str) -> (r: bool)
    ensures
        r == is_graphql_identifier(s@),
{
    let v = chars_of(s);
    if v.len() == 0 {
        return false;
    }
    let first = v[0];
    if !(('a' <= first && first <= 'z') || ('A' <= first && first <= 'Z') || first == '_') {
        return false;
    }
    let mut i: usize = 1;
    while i < v.len()
        invariant
            1 <= i <= v@.len(),
            v@ == s@,
            forall|j: int| 1 <= j < i ==> (is_ascii_alnum(#[trigger] v@[j]) || v@[j] == '_'),
        decreases v.len() - i,
    {
        let c = v[i];
        if !(('a' <= c && c <= 'z') || ('A' <= c && c <= 'Z') || ('0' <= c && c <= '9') || c
            == '_') {
            return false;
        }
        i = i + 1;
    }
    true
}

/// Whether `v` is digits followed by one `x`.
fn is_multiplier_text(v: &Vec<char>) -> (r: bool)
    ensures
        r == is_multiplier(v@),
{
    let n = v.len();
    if n < 2 || v[n - 1] != 'x' {
        return false;
    }
    let mut i: usize = 0;
    while i < n - 1
        invariant
            2 <= n == v@.len(),
            i <= n - 1,
            forall|j: int| 0 <= j < i ==> is_ascii_digit(#[trigger] v@[j]),
        decreases n - 1 - i,
    {
        if !('0' <= v[i] && v[i] <= '9') {
            return false;
        }
        i = i + 1;
    }
    true
}

/// Whether `s` looks like a short constant rather than a field name.
pub fn is_likely_constant_literal(s: &str) -> (r: bool)
    ensures
        r == is_constant_like(s@),
{
    let v = chars_of(s);
    let bytes = s.as_bytes().len();
    if v.len() == 0 || bytes > 12 {
        return false;
    }
    let mut all_upper_or_punct = true;
    let mut numeric_ish = true;
    let mut i: usize = 0;
    while i < v.len()
        invariant
            i <= v@.len(),
            v@ == s@,
            all_upper_or_punct == (forall|j: int| 0 <= j < i ==> is_upper_or_punct(#[trigger] v@[j])),
            numeric_ish == (forall|j: int| 0 <= j < i ==> is_numeric_ish(#[trigger] v@[j])),
        decreases v.len() - i,
    {
        let c = v[i];
        let up = ('A' <= c && c <= 'Z') || ('0' <= c && c <= '9') || c == '_' || c == '-';
        let num = ('0' <= c && c <= '9') || c == '.' || c == '-' || c == ',';
        proof {
            if !up {
                assert(!is_upper_or_punct(v@[i as int]));
            }
            if !num {
                assert(!is_numeric_ish(v@[i as int]));
            }
        }
        all_upper_or_punct = all_upper_or_punct && up;
        numeric_ish = numeric_ish && num;
        i = i + 1;
    }
    assert(v@ == s@);
    let multiplier = is_multiplier_text(&v);
    all_upper_or_punct || numeric_ish || multiplier || v.len() == 1
}

/// Whether `s` is written in snake_case or camelCase, like a REST API field.
pub fn looks_like_rest_field_name(s: &str) -> (r: bool)
    ensures
        r == is_rest_field_name(s@),
{
    let v = chars_of(s);
    let mut lower = false;
    let mut underscore = false;
    let mut camel = false;
    let mut i: usize = 0;
    while i < v.len()
        invariant
            i <= v@.len(),
            v@ == s@,
            lower == (exists|j: int| 0 <= j < i && is_ascii_lower(#[trigger] v@[j])),
            underscore == (exists|j: int| 0 <= j < i && #[trigger] v@[j] == '_'),
            camel == (exists|j: int|
                0 <= j && j + 1 < i && is_ascii_lower(#[trigger] v@[j]) && is_ascii_upper(v@[j + 1])),
        decreases v.len() - i,
    {
        let c = v[i];
        let is_lower = 'a' <= c && c <= 'z';
        let is_upper = 'A' <= c && c <= 'Z';
        if i > 0 && is_upper {
            let p = v[i - 1];
            if 'a' <= p && p <= 'z' {
                assert(is_ascii_lower(v@[i - 1]) && is_ascii_upper(v@[(i - 1) + 1]));
                camel = true;
            }
        }
        proof {
            if !(i > 0 && is_upper && is_ascii_lower(v@[i - 1])) {
                assert forall|j: int|
                    0 <= j && j + 1 < i + 1 && is_ascii_lower(#[trigger] v@[j]) implies !is_ascii_upper(
                    v@[j + 1],
                ) || j + 1 < i by {}
            }
        }
        if is_lower {
            lower = true;
        }
        if c == '_' {
            underscore = true;
        }
        i = i + 1;
    }
    (lower && underscore) || camel
}

/// Appends `a`, then `mid`, then `b`.
fn push3(out: &mut String, a: &str, mid: &str, b: &str)
    ensures
        final(out)@ == old(out)@ + a@ + mid@ + b@,
{
    out.append(a);
    out.append(mid);
    out.append(b);
}

/// The recommendation for a divergence, with its one-line reason.
pub fn classify(kind: &DiffKind) -> (r: (Recommendation, String))
    ensures
        r.0 == classification(kind@).0,
        r.1@ == classification(kind@).1,
{
    let mut reason = String::new();
    let rec = match kind {
        DiffKind::KeyQuotedFlippedToLiteralString { text, followed_by, .. } => {
            if *followed_by != FollowedBy::Nothing {
                push3(
                    &mut reason,
                    "`\"",
                    text.as_str(),
                    "\"` is followed by a path access — literals don't have fields, so the v0.3 field-reference reading is the intended one.",
                );
                Recommendation::KeepV03
            } else if is_likely_constant_literal(text.as_str()) {
                push3(
                    &mut reason,
                    "`\"",
                    text.as_str(),
                    "\"` looks like a short constant; the v0.4 reading as a literal string matches the apparent intent.",
                );
                Recommendation::EmbraceV04
            } else if !is_valid_graphql_identifier(text.as_str()) {
                push3(
                    &mut reason,
                    "`\"",
                    text.as_str(),
                    "\"` contains characters not valid in a GraphQL identifier, so it is almost certainly a quoted field name from a REST response.",
                );
                Recommendation::KeepV03
            } else if looks_like_rest_field_name(text.as_str()) {
                push3(
                    &mut reason,
                    "`\"",
                    text.as_str(),
                    "\"` looks like a REST API field name (camelCase or snake_case), so the v0.3 field-reference reading is the intended one.",
                );
                Recommendation::KeepV03
            } else {
                push3(
                    &mut reason,
                    "`\"",
                    text.as_str(),
                    "\"` could be either a quoted field name or an intended literal. Review against your backend.",
                );
                Recommendation::Ambiguous
            }
        },
        DiffKind::KeyFlippedToLiteralNull { followed_by, .. } => {
            if *followed_by != FollowedBy::Nothing {
                reason.append(
                    "`null` is followed by a path access — literals have no fields, so the v0.3 field-reference reading is the intended one.",
                );
                Recommendation::KeepV03
            } else {
                reason.append(
                    "Bare `null` in value position is almost always intended as a literal null value; v0.3 returned the same thing accidentally via response normalization.",
                );
                Recommendation::EmbraceV04
            }
        },
        DiffKind::KeyFlippedToLiteralBool { value, followed_by, .. } => {
            let lit = if *value {
                "true"
            } else {
                "false"
            };
            if *followed_by != FollowedBy::Nothing {
                push3(
                    &mut reason,
                    "`",
                    lit,
                    "` is followed by a path access — literals have no fields, so the v0.3 field-reference reading is the intended one.",
                );
                Recommendation::KeepV03
            } else {
                push3(
                    &mut reason,
                    "Bare `",
                    lit,
                    "` in value position is almost always intended as a literal boolean.",
                );
                Recommendation::EmbraceV04
            }
        },
        DiffKind::KeyFieldFlippedToLiteralString { text, followed_by, .. } => {
            if *followed_by != FollowedBy::Nothing {
                push3(
                    &mut reason,
                    "`",
                    text.as_str(),
                    "` is followed by a path access — literals have no fields.",
                );
                Recommendation::KeepV03
            } else {
                push3(
                    &mut reason,
                    "`",
                    text.as_str(),
                    "` is ambiguous (bare identifier interpreted as a string under v0.4). Review against your backend.",
                );
                Recommendation::Ambiguous
            }
        },
        _ => {
            reason.append("Unclassified diff — please review manually.");
            Recommendation::Ambiguous
        },
    };
    assert(reason@ =~= classification(kind@).1);
    (rec, reason)
}

} // verus!
