//! Turning the divergences of each `@connect` selection into site records:
//! only the single-token kinds kept, each token classified, identified by a
//! stable eight-digit hash; and the selections that parse under neither spec.
use vstd::prelude::*;
use std::collections::hash_map::DefaultHasher;
use std::hash::Hasher;
use vstd::std_specs::hash::DefaultHasherAdditionalSpecFns;
use vstd::utf8::encode_utf8;
use crate::classify::{classification, classify};
use crate::model::{
    DiffKind, DiffKindView, Recommendation, Site, SiteView, diff_kind_followed_by, diff_kind_name,
    diff_kind_source_range, diff_kind_text, site_views,
};
use crate::scan::{ConnectSelection, ConnectSelectionView};
use crate::text::{hex_fixed, push_hex_fixed};

verus! {

// ---------------------------------------------------------------------------
// Site identifiers
// ---------------------------------------------------------------------------

/// What a `str` feeds a hasher when hashed: its UTF-8 bytes, then the
/// byte `0xFF` (which cannot occur in UTF-8, so the encoding is prefix-free).
pub open spec fn str_hash_writes(s: Seq<char>) -> Seq<Seq<u8>> {
    seq![encode_utf8(s), seq![0xFFu8]]
}

/// Hashes `s` into `h` the way `<str as Hash>::hash` does.
fn hash_str(s: &str, h: &mut DefaultHasher)
    ensures
        final(h)@ == old(h)@ + str_hash_writes(s@),
{
    h.write(s.as_bytes());
    let terminator: [u8; 1] = [0xFFu8];
    h.write(&terminator);
    assert(terminator@ =~= seq![0xFFu8]);
    assert(final(h)@ =~= old(h)@ + str_hash_writes(s@));
}

/// The identifier of a site with a given hash: the low 32 bits, as eight
/// lowercase hexadecimal digits.
pub open spec fn id_of_hash(h: u64) -> Seq<char> {
    hex_fixed((h % 0x1_0000_0000) as nat, 8)
}

/// The `DefaultHasher` hash of a site's file, coordinate, kind, token text
/// and selection, hashed in that order.
pub open spec fn site_hash(
    file: Seq<char>,
    coordinate: Seq<char>,
    kind: Seq<char>,
    text: Seq<char>,
    selection: Seq<char>,
) -> u64 {
    DefaultHasher::spec_finish(
        str_hash_writes(file) + str_hash_writes(coordinate) + str_hash_writes(kind)
            + str_hash_writes(text) + str_hash_writes(selection),
    )
}

/// The identifier of a site: the hash of its file, coordinate, kind, token
/// text and selection, as eight lowercase hexadecimal digits.
pub open spec fn site_id(
    file: Seq<char>,
    coordinate: Seq<char>,
    kind: Seq<char>,
    text: Seq<char>,
    selection: Seq<char>,
) -> Seq<char> {
    id_of_hash(site_hash(file, coordinate, kind, text, selection))
}

/// The identifier for a site hash: its low 32 bits in eight lowercase
/// hexadecimal digits.
pub fn format_site_id(h: u64) -> (r: String)
    ensures
        r@ == id_of_hash(h),
{
    let mut out = String::new();
    push_hex_fixed(&mut out, h % 0x1_0000_0000, 8);
    out
}

/// The identifier of a site.
pub fn hash_id(file: &str, coordinate: &str, kind: &str, text: &str, selection: &str) -> (r: String)
    ensures
        r@ == site_id(file@, coordinate@, kind@, text@, selection@),
{
    let mut hasher = DefaultHasher::new();
    hash_str(file, &mut hasher);
    hash_str(coordinate, &mut hasher);
    hash_str(kind, &mut hasher);
    hash_str(text, &mut hasher);
    hash_str(selection, &mut hasher);
    let h = hasher.finish();
    assert(hasher@ =~= str_hash_writes(file@) + str_hash_writes(coordinate@) + str_hash_writes(
        kind@,
    ) + str_hash_writes(text@) + str_hash_writes(selection@));
    format_site_id(h)
}

// ---------------------------------------------------------------------------
// Sites of a selection
// ---------------------------------------------------------------------------

/// What the dual parse of a selection under both specs found.
pub enum SelectionComparison {
    /// The selection parses under neither spec: it was already broken. It is
    /// no migration target, and is reported apart from the sites.
    Unparsable,
    /// The selection parses under one spec only: no migration target.
    OneSided,
    /// Both parses agree.
    Identical,
    /// The parses differ in these ways, in the order the diff walk met them.
    Divergent(Vec<DiffKind>),
}

/// The divergences worth reporting: those about a single token, in order.
/// The object-shape kinds change no behavior and are dropped, as are
/// divergences of no known kind.
pub open spec fn reported_kinds(c: SelectionComparison) -> Seq<DiffKindView> {
    match c {
        SelectionComparison::Divergent(ds) => ds@.map_values(|k: DiffKind| k@).filter(
            |k: DiffKindView| k.is_token(),
        ),
        _ => Seq::empty(),
    }
}

/// The site record for one reported divergence of a selection.
pub open spec fn site_for(file: Seq<char>, c: ConnectSelectionView, k: DiffKindView) -> SiteView {
    SiteView {
        id: site_id(file, c.coordinate, k.name(), k.text(), c.selection),
        file,
        coordinate: c.coordinate,
        kind: k.name(),
        text: k.text(),
        followed_by: k.followed_by(),
        recommendation: classification(k).0,
        reasoning: classification(k).1,
        line: Some(c.line),
        col: Some(c.col),
        source_range: k.source_range(),
        selection: c.selection,
    }
}

/// The site records of a selection, one per reported divergence, in order.
pub open spec fn connect_sites(
    file: Seq<char>,
    c: ConnectSelectionView,
    comparison: SelectionComparison,
) -> Seq<SiteView> {
    reported_kinds(comparison).map_values(|k: DiffKindView| site_for(file, c, k))
}

fn build_site(file: &str, c: &ConnectSelection, kind: &DiffKind) -> (r: Site)
    ensures
        r@ == site_for(file@, c@, kind@),
{
    let kind_name = diff_kind_name(kind);
    let text = diff_kind_text(kind).to_string();
    let followed_by = diff_kind_followed_by(kind);
    let source_range = diff_kind_source_range(kind);
    let (rec, reason) = classify(kind);
    let id = hash_id(file, c.coordinate.as_str(), kind_name, text.as_str(), c.selection.as_str());
    Site {
        id,
        file: file.to_string(),
        coordinate: c.coordinate.clone(),
        kind: kind_name.to_string(),
        text,
        followed_by,
        recommendation: rec,
        reasoning: reason,
        line: Some(c.line),
        col: Some(c.col),
        source_range,
        selection: c.selection.clone(),
    }
}

fn is_token_kind(kind: &DiffKind) -> (r: bool)
    ensures
        r == kind@.is_token(),
{
    match kind {
        DiffKind::KeyFlippedToLiteralNull { .. } | DiffKind::KeyFlippedToLiteralBool { .. }
        | DiffKind::KeyFieldFlippedToLiteralString { .. }
        | DiffKind::KeyQuotedFlippedToLiteralString { .. } => true,
        _ => false,
    }
}

/// Appends the site records of one `@connect` selection of `file`, given
/// what the dual parse of its selection found: one per divergence about a
/// single token, in order; none when the parses agree or one of them
/// failed.
pub fn handle_connect(
    file: &str,
    connect: &ConnectSelection,
    comparison: &SelectionComparison,
    out: &mut Vec<Site>,
)
    ensures
        site_views(final(out)@) == site_views(old(out)@) + connect_sites(
            file@,
            connect@,
            *comparison,
        ),
{
    let ghost base = site_views(out@);
    match comparison {
        SelectionComparison::Divergent(diffs) => {
            let ghost kinds = diffs@.map_values(|k: DiffKind| k@);
            let ghost pred = |k: DiffKindView| k.is_token();
            let ghost mk = |k: DiffKindView| site_for(file@, connect@, k);
            let mut i: usize = 0;
            assert(kinds.take(0) =~= Seq::<DiffKindView>::empty());
            assert(site_views(out@) =~= base + kinds.take(0).filter(pred).map_values(mk));
            while i < diffs.len()
                invariant
                    i <= diffs@.len(),
                    kinds == diffs@.map_values(|k: DiffKind| k@),
                    pred == (|k: DiffKindView| k.is_token()),
                    mk == (|k: DiffKindView| site_for(file@, connect@, k)),
                    site_views(out@) == base + kinds.take(i as int).filter(pred).map_values(mk),
                decreases diffs.len() - i,
            {
                let ghost t = kinds.take(i + 1);
                assert(t.drop_last() =~= kinds.take(i as int));
                assert(t.last() == diffs@[i as int]@);
                let ghost before = site_views(out@);
                let kind = &diffs[i];
                proof {
                    reveal(Seq::filter);
                }
                if is_token_kind(kind) {
                    let site = build_site(file, connect, kind);
                    let ghost sv = site@;
                    out.push(site);
                    assert(site_views(out@) =~= before.push(sv));
                    assert(t.filter(pred) == kinds.take(i as int).filter(pred).push(kind@));
                    assert(kinds.take(i as int).filter(pred).push(kind@).map_values(mk)
                        =~= kinds.take(i as int).filter(pred).map_values(mk).push(mk(kind@)));
                    assert(site_views(out@) =~= base + t.filter(pred).map_values(mk));
                } else {
                    assert(t.filter(pred) == kinds.take(i as int).filter(pred));
                }
                i = i + 1;
            }
            assert(kinds.take(diffs@.len() as int) =~= kinds);
        },
        _ => {
            assert(site_views(out@) =~= base + connect_sites(file@, connect@, *comparison));
        },
    }
}

// ---------------------------------------------------------------------------
// Analysis
// ---------------------------------------------------------------------------

/// One `@connect` selection found in a schema file, with what the dual
/// parse of its selection found.
pub struct ScannedSelection {
    /// Project-relative path of the schema file.
    pub file: String,
    pub connect: ConnectSelection,
    pub comparison: SelectionComparison,
}

/// The sites of a project: those of each selection, in the order the
/// selections were found.
pub open spec fn analysis(scanned: Seq<ScannedSelection>) -> Seq<SiteView>
    decreases scanned.len(),
{
    if scanned.len() == 0 {
        Seq::empty()
    } else {
        let last = scanned.last();
        analysis(scanned.drop_last()) + connect_sites(last.file@, last.connect@, last.comparison)
    }
}

/// Every breaking site of a project, given its `@connect` selections in
/// file-walk order: the sites of each selection in diff-walk order.
pub fn analyze(scanned: &[ScannedSelection]) -> (r: Vec<Site>)
    ensures
        site_views(r@) == analysis(scanned@),
{
    let mut out: Vec<Site> = Vec::new();
    let mut i: usize = 0;
    assert(scanned@.take(0) =~= Seq::<ScannedSelection>::empty());
    assert(site_views(out@) =~= analysis(scanned@.take(0)));
    while i < scanned.len()
        invariant
            i <= scanned@.len(),
            site_views(out@) == analysis(scanned@.take(i as int)),
        decreases scanned.len() - i,
    {
        let ghost t = scanned@.take(i + 1);
        assert(t.drop_last() =~= scanned@.take(i as int));
        assert(t.last() == scanned@[i as int]);
        let s = &scanned[i];
        handle_connect(s.file.as_str(), &s.connect, &s.comparison, &mut out);
        i = i + 1;
    }
    assert(scanned@.take(scanned@.len() as int) =~= scanned@);
    out
}

// ---------------------------------------------------------------------------
// Selections that parse under neither spec
// ---------------------------------------------------------------------------

/// A `@connect` selection that parses under neither spec.
pub struct BrokenSelection {
    /// Project-relative path of the schema file.
    pub file: String,
    pub coordinate: String,
    /// Line and column of the directive's start (1-based).
    pub line: usize,
    pub col: usize,
}

pub struct BrokenSelectionView {
    pub file: Seq<char>,
    pub coordinate: Seq<char>,
    pub line: usize,
    pub col: usize,
}

impl View for BrokenSelection {
    type V = BrokenSelectionView;

    open spec fn view(&self) -> BrokenSelectionView {
        BrokenSelectionView {
            file: self.file@,
            coordinate: self.coordinate@,
            line: self.line,
            col: self.col,
        }
    }
}

pub open spec fn broken_views(bs: Seq<BrokenSelection>) -> Seq<BrokenSelectionView> {
    bs.map_values(|b: BrokenSelection| b@)
}

/// The selections of a project that parse under neither spec, in the order
/// they were found.
pub open spec fn broken_selections(scanned: Seq<ScannedSelection>) -> Seq<BrokenSelectionView>
    decreases scanned.len(),
{
    if scanned.len() == 0 {
        Seq::empty()
    } else {
        let last = scanned.last();
        let p = broken_selections(scanned.drop_last());
        if last.comparison is Unparsable {
            p.push(
                BrokenSelectionView {
                    file: last.file@,
                    coordinate: last.connect.coordinate@,
                    line: last.connect.line,
                    col: last.connect.col,
                },
            )
        } else {
            p
        }
    }
}

/// The selections of a project that parse under neither spec, given its
/// `@connect` selections in file-walk order.
pub fn unparsable_selections(scanned: &[ScannedSelection]) -> (r: Vec<BrokenSelection>)
    ensures
        broken_views(r@) == broken_selections(scanned@),
{
    let mut out: Vec<BrokenSelection> = Vec::new();
    let mut i: usize = 0;
    assert(scanned@.take(0) =~= Seq::<ScannedSelection>::empty());
    assert(broken_views(out@) =~= broken_selections(scanned@.take(0)));
    while i < scanned.len()
        invariant
            i <= scanned@.len(),
            broken_views(out@) == broken_selections(scanned@.take(i as int)),
        decreases scanned.len() - i,
    {
        let ghost t = scanned@.take(i + 1);
        assert(t.drop_last() =~= scanned@.take(i as int));
        assert(t.last() == scanned@[i as int]);
        let s = &scanned[i];
        let ghost before = broken_views(out@);
        match s.comparison {
            SelectionComparison::Unparsable => {
                let b = BrokenSelection {
                    file: s.file.clone(),
                    coordinate: s.connect.coordinate.clone(),
                    line: s.connect.line,
                    col: s.connect.col,
                };
                out.push(b);
                assert(broken_views(out@) =~= before.push(b@));
            },
            _ => {},
        }
        i = i + 1;
    }
    assert(scanned@.take(scanned@.len() as int) =~= scanned@);
    out
}

// ---------------------------------------------------------------------------
// Summary
// ---------------------------------------------------------------------------

/// How many of the sites carry recommendation `r`.
pub open spec fn count_recommended(ss: Seq<SiteView>, r: Recommendation) -> nat
    decreases ss.len(),
{
    if ss.len() == 0 {
        0
    } else {
        count_recommended(ss.drop_last(), r) + if ss.last().recommendation == r {
            1nat
        } else {
            0nat
        }
    }
}

/// How many sites are recommended `keep-v0.3`, `embrace-v0.4` and `???`,
/// in that order.
pub fn recommendation_counts(sites: &[Site]) -> (r: (usize, usize, usize))
    ensures
        r.0 == count_recommended(site_views(sites@), Recommendation::KeepV03),
        r.1 == count_recommended(site_views(sites@), Recommendation::EmbraceV04),
        r.2 == count_recommended(site_views(sites@), Recommendation::Ambiguous),
        r.0 + r.1 + r.2 == sites@.len(),
{
    let ghost views = site_views(sites@);
    let mut kept: usize = 0;
    let mut embraced: usize = 0;
    let mut ambiguous: usize = 0;
    let mut i: usize = 0;
    assert(views.take(0) =~= Seq::<SiteView>::empty());
    while i < sites.len()
        invariant
            i <= sites@.len(),
            views == site_views(sites@),
            kept == count_recommended(views.take(i as int), Recommendation::KeepV03),
            embraced == count_recommended(views.take(i as int), Recommendation::EmbraceV04),
            ambiguous == count_recommended(views.take(i as int), Recommendation::Ambiguous),
            kept + embraced + ambiguous == i,
        decreases sites.len() - i,
    {
        let ghost t = views.take(i + 1);
        assert(t.drop_last() =~= views.take(i as int));
        assert(t.last() == sites@[i as int]@);
        match sites[i].recommendation {
            Recommendation::KeepV03 => kept = kept + 1,
            Recommendation::EmbraceV04 => embraced = embraced + 1,
            Recommendation::Ambiguous => ambiguous = ambiguous + 1,
        }
        i = i + 1;
    }
    assert(views.take(sites@.len() as int) =~= views);
    (kept, embraced, ambiguous)
}

} // verus!
