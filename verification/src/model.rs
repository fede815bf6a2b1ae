//! The data the analyzer works with: the divergences that the dual parse of
//! a selection reports, the per-token recommendation, and the emitted site
//! record, each with the mathematical view that contracts speak of.
use vstd::prelude::*;

verus! {

/// What follows a divergent token in its selection.
#[derive(Clone, Copy, Debug, PartialEq, Eq, Structural)]
pub enum FollowedBy {
    Nothing,
    KeyAccess,
    Method,
    SubSelection,
    Question,
    Expr,
}

/// One way in which a selection reads differently under `connect/v0.3` and
/// `connect/v0.4`. `source_range` is a byte range into the selection text.
#[derive(Clone, Debug)]
pub enum DiffKind {
    KeyFlippedToLiteralNull { source_range: Option<(usize, usize)>, followed_by: FollowedBy },
    KeyFlippedToLiteralBool {
        value: bool,
        source_range: Option<(usize, usize)>,
        followed_by: FollowedBy,
    },
    KeyFieldFlippedToLiteralString {
        text: String,
        source_range: Option<(usize, usize)>,
        followed_by: FollowedBy,
    },
    KeyQuotedFlippedToLiteralString {
        text: String,
        source_range: Option<(usize, usize)>,
        followed_by: FollowedBy,
    },
    SubSelectionToLitObject { source_range: Option<(usize, usize)> },
    LegacyObjectToLitObject { source_range: Option<(usize, usize)> },
    Other { source_range: Option<(usize, usize)> },
}

/// The recommended decision for one divergent token.
#[derive(Clone, Copy, Debug, PartialEq, Eq, Structural)]
pub enum Recommendation {
    KeepV03,
    EmbraceV04,
    Ambiguous,
}

impl Recommendation {
    pub open spec fn name(self) -> Seq<char> {
        match self {
            Recommendation::KeepV03 => "keep-v0.3"@,
            Recommendation::EmbraceV04 => "embrace-v0.4"@,
            Recommendation::Ambiguous => "???"@,
        }
    }

    /// The name under which the recommendation appears in reports.
    pub fn as_str(self) -> (s: &'static str)
        ensures
            s@ == self.name(),
    {
        match self {
            Recommendation::KeepV03 => "keep-v0.3",
            Recommendation::EmbraceV04 => "embrace-v0.4",
            Recommendation::Ambiguous => "???",
        }
    }
}

/// The view of a `DiffKind`: its strings as character sequences.
pub enum DiffKindView {
    KeyFlippedToLiteralNull { source_range: Option<(usize, usize)>, followed_by: FollowedBy },
    KeyFlippedToLiteralBool {
        value: bool,
        source_range: Option<(usize, usize)>,
        followed_by: FollowedBy,
    },
    KeyFieldFlippedToLiteralString {
        text: Seq<char>,
        source_range: Option<(usize, usize)>,
        followed_by: FollowedBy,
    },
    KeyQuotedFlippedToLiteralString {
        text: Seq<char>,
        source_range: Option<(usize, usize)>,
        followed_by: FollowedBy,
    },
    SubSelectionToLitObject { source_range: Option<(usize, usize)> },
    LegacyObjectToLitObject { source_range: Option<(usize, usize)> },
    Other { source_range: Option<(usize, usize)> },
}

impl View for DiffKind {
    type V = DiffKindView;

    open spec fn view(&self) -> DiffKindView {
        match self {
            DiffKind::KeyFlippedToLiteralNull { source_range, followed_by } => {
                DiffKindView::KeyFlippedToLiteralNull {
                    source_range: *source_range,
                    followed_by: *followed_by,
                }
            },
            DiffKind::KeyFlippedToLiteralBool { value, source_range, followed_by } => {
                DiffKindView::KeyFlippedToLiteralBool {
                    value: *value,
                    source_range: *source_range,
                    followed_by: *followed_by,
                }
            },
            DiffKind::KeyFieldFlippedToLiteralString { text, source_range, followed_by } => {
                DiffKindView::KeyFieldFlippedToLiteralString {
                    text: text@,
                    source_range: *source_range,
                    followed_by: *followed_by,
                }
            },
            DiffKind::KeyQuotedFlippedToLiteralString { text, source_range, followed_by } => {
                DiffKindView::KeyQuotedFlippedToLiteralString {
                    text: text@,
                    source_range: *source_range,
                    followed_by: *followed_by,
                }
            },
            DiffKind::SubSelectionToLitObject { source_range } => {
                DiffKindView::SubSelectionToLitObject { source_range: *source_range }
            },
            DiffKind::LegacyObjectToLitObject { source_range } => {
                DiffKindView::LegacyObjectToLitObject { source_range: *source_range }
            },
            DiffKind::Other { source_range } => DiffKindView::Other {
                source_range: *source_range,
            },
        }
    }
}

impl DiffKindView {
    /// The snake_case name of the variant.
    pub open spec fn name(self) -> Seq<char> {
        match self {
            DiffKindView::KeyFlippedToLiteralNull { .. } => "key_flipped_to_literal_null"@,
            DiffKindView::KeyFlippedToLiteralBool { .. } => "key_flipped_to_literal_bool"@,
            DiffKindView::KeyFieldFlippedToLiteralString {
                ..
            } => "key_field_flipped_to_literal_string"@,
            DiffKindView::KeyQuotedFlippedToLiteralString {
                ..
            } => "key_quoted_flipped_to_literal_string"@,
            DiffKindView::SubSelectionToLitObject { .. } => "sub_selection_to_lit_object"@,
            DiffKindView::LegacyObjectToLitObject { .. } => "legacy_object_to_lit_object"@,
            DiffKindView::Other { .. } => "other"@,
        }
    }

    /// The source text of the token at issue; empty for the object-shape kinds.
    pub open spec fn text(self) -> Seq<char> {
        match self {
            DiffKindView::KeyFlippedToLiteralNull { .. } => "null"@,
            DiffKindView::KeyFlippedToLiteralBool { value, .. } => if value {
                "true"@
            } else {
                "false"@
            },
            DiffKindView::KeyFieldFlippedToLiteralString { text, .. } => text,
            DiffKindView::KeyQuotedFlippedToLiteralString { text, .. } => text,
            _ => Seq::empty(),
        }
    }

    /// What follows the token; `Nothing` for the object-shape kinds.
    pub open spec fn followed_by(self) -> FollowedBy {
        match self {
            DiffKindView::KeyFlippedToLiteralNull { followed_by, .. } => followed_by,
            DiffKindView::KeyFlippedToLiteralBool { followed_by, .. } => followed_by,
            DiffKindView::KeyFieldFlippedToLiteralString { followed_by, .. } => followed_by,
            DiffKindView::KeyQuotedFlippedToLiteralString { followed_by, .. } => followed_by,
            _ => FollowedBy::Nothing,
        }
    }

    pub open spec fn source_range(self) -> Option<(usize, usize)> {
        match self {
            DiffKindView::KeyFlippedToLiteralNull { source_range, .. } => source_range,
            DiffKindView::KeyFlippedToLiteralBool { source_range, .. } => source_range,
            DiffKindView::KeyFieldFlippedToLiteralString { source_range, .. } => source_range,
            DiffKindView::KeyQuotedFlippedToLiteralString { source_range, .. } => source_range,
            DiffKindView::SubSelectionToLitObject { source_range } => source_range,
            DiffKindView::LegacyObjectToLitObject { source_range } => source_range,
            DiffKindView::Other { source_range } => source_range,
        }
    }

    /// The kinds about a single token, the ones that analysis reports: a key
    /// that now reads as a literal `null`, boolean or string.
    pub open spec fn is_token(self) -> bool {
        ||| self is KeyFlippedToLiteralNull
        ||| self is KeyFlippedToLiteralBool
        ||| self is KeyFieldFlippedToLiteralString
        ||| self is KeyQuotedFlippedToLiteralString
    }
}

/// The byte range of the token at issue.
pub fn diff_kind_source_range(kind: &DiffKind) -> (r: Option<(usize, usize)>)
    ensures
        r == kind@.source_range(),
{
    match kind {
        DiffKind::KeyFlippedToLiteralNull { source_range, .. } => *source_range,
        DiffKind::KeyFlippedToLiteralBool { source_range, .. } => *source_range,
        DiffKind::KeyFieldFlippedToLiteralString { source_range, .. } => *source_range,
        DiffKind::KeyQuotedFlippedToLiteralString { source_range, .. } => *source_range,
        DiffKind::SubSelectionToLitObject { source_range } => *source_range,
        DiffKind::LegacyObjectToLitObject { source_range } => *source_range,
        DiffKind::Other { source_range } => *source_range,
    }
}

/// The snake_case name of the kind.
pub fn diff_kind_name(kind: &DiffKind) -> (r: &'static str)
    ensures
        r@ == kind@.name(),
{
    match kind {
        DiffKind::KeyFlippedToLiteralNull { .. } => "key_flipped_to_literal_null",
        DiffKind::KeyFlippedToLiteralBool { .. } => "key_flipped_to_literal_bool",
        DiffKind::KeyFieldFlippedToLiteralString { .. } => "key_field_flipped_to_literal_string",
        DiffKind::KeyQuotedFlippedToLiteralString { .. } => "key_quoted_flipped_to_literal_string",
        DiffKind::SubSelectionToLitObject { .. } => "sub_selection_to_lit_object",
        DiffKind::LegacyObjectToLitObject { .. } => "legacy_object_to_lit_object",
        DiffKind::Other { .. } => "other",
    }
}

/// The source text of the token at issue.
pub fn diff_kind_text(kind: &DiffKind) -> (r: &str)
    ensures
        r@ == kind@.text(),
{
    match kind {
        DiffKind::KeyFlippedToLiteralNull { .. } => "null",
        DiffKind::KeyFlippedToLiteralBool { value: true, .. } => "true",
        DiffKind::KeyFlippedToLiteralBool { value: false, .. } => "false",
        DiffKind::KeyFieldFlippedToLiteralString { text, .. } => text.as_str(),
        DiffKind::KeyQuotedFlippedToLiteralString { text, .. } => text.as_str(),
        _ => {
            proof {
                reveal_strlit("");
            }
            ""
        },
    }
}

/// What follows the token at issue.
pub fn diff_kind_followed_by(kind: &DiffKind) -> (r: FollowedBy)
    ensures
        r == kind@.followed_by(),
{
    match kind {
        DiffKind::KeyFlippedToLiteralNull { followed_by, .. } => *followed_by,
        DiffKind::KeyFlippedToLiteralBool { followed_by, .. } => *followed_by,
        DiffKind::KeyFieldFlippedToLiteralString { followed_by, .. } => *followed_by,
        DiffKind::KeyQuotedFlippedToLiteralString { followed_by, .. } => *followed_by,
        _ => FollowedBy::Nothing,
    }
}

/// Per-site record: one breaking divergence found in the selection of one
/// `@connect` directive.
#[derive(Clone, Debug)]
pub struct Site {
    /// Eight lowercase hexadecimal digits identifying the site.
    pub id: String,
    /// Project-relative path of the schema file.
    pub file: String,
    /// Schema coordinate (`Type.field`, or `Type` for a directive on the type).
    pub coordinate: String,
    /// The kind of divergence, in snake_case.
    pub kind: String,
    /// The source text of the token at issue.
    pub text: String,
    pub followed_by: FollowedBy,
    pub recommendation: Recommendation,
    /// One-line justification of the recommendation.
    pub reasoning: String,
    /// Line of the `@connect` directive's start (1-based).
    pub line: Option<usize>,
    /// Column of the `@connect` directive's start (1-based).
    pub col: Option<usize>,
    /// Byte range of the token inside `selection`.
    pub source_range: Option<(usize, usize)>,
    /// The selection text, with `$$` normalized to `$`.
    pub selection: String,
}

/// The view of a `Site`: its strings as character sequences.
pub struct SiteView {
    pub id: Seq<char>,
    pub file: Seq<char>,
    pub coordinate: Seq<char>,
    pub kind: Seq<char>,
    pub text: Seq<char>,
    pub followed_by: FollowedBy,
    pub recommendation: Recommendation,
    pub reasoning: Seq<char>,
    pub line: Option<usize>,
    pub col: Option<usize>,
    pub source_range: Option<(usize, usize)>,
    pub selection: Seq<char>,
}

impl View for Site {
    type V = SiteView;

    open spec fn view(&self) -> SiteView {
        SiteView {
            id: self.id@,
            file: self.file@,
            coordinate: self.coordinate@,
            kind: self.kind@,
            text: self.text@,
            followed_by: self.followed_by,
            recommendation: self.recommendation,
            reasoning: self.reasoning@,
            line: self.line,
            col: self.col,
            source_range: self.source_range,
            selection: self.selection@,
        }
    }
}

/// The views of a sequence of sites.
pub open spec fn site_views(sites: Seq<Site>) -> Seq<SiteView> {
    sites.map_values(|s: Site| s@)
}

} // verus!
