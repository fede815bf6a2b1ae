//! Grouping of sites into sections (one per `@connect` selection) and the
//! proposed rewrite of each selection, in which every token recommended
//! `keep-v0.3` or `???` is fortified with a `$.` prefix (the v0.3 reading is
//! preserved; only `embrace-v0.4` tokens stay as they are).
use vstd::prelude::*;
use vstd::utf8::{decode_utf8, encode_utf8, is_char_boundary, valid_utf8};
use crate::model::{Recommendation, Site, SiteView, site_views};
use crate::text::same_text;

verus! {

// ---------------------------------------------------------------------------
// Sections
// ---------------------------------------------------------------------------

/// Two sites come from the same `@connect` selection.
pub open spec fn same_directive(a: SiteView, b: SiteView) -> bool {
    a.file == b.file && a.coordinate == b.coordinate && a.selection == b.selection
}

/// The sections of a site list, as index ranges `[start, end)`: each run of
/// consecutive sites from the same selection as the run's first site.
pub open spec fn section_ranges(sites: Seq<SiteView>) -> Seq<(int, int)>
    decreases sites.len(),
{
    if sites.len() == 0 {
        Seq::empty()
    } else {
        let p = section_ranges(sites.drop_last());
        if p.len() > 0 && same_directive(sites[p.last().0], sites.last()) {
            p.update(p.len() - 1, (p.last().0, sites.len() as int))
        } else {
            p.push((sites.len() - 1, sites.len() as int))
        }
    }
}

/// The ranges tile `0..n` in order, each is nonempty, and each holds sites
/// of one selection.
pub open spec fn ranges_tile(sites: Seq<SiteView>, r: Seq<(int, int)>) -> bool {
    &&& sites.len() == 0 <==> r.len() == 0
    &&& r.len() > 0 ==> r[0].0 == 0 && r.last().1 == sites.len()
    &&& forall|k: int| 0 <= k < r.len() ==> 0 <= #[trigger] r[k].0 < r[k].1 <= sites.len()
    &&& forall|k: int| 0 <= k < r.len() - 1 ==> #[trigger] r[k].1 == r[k + 1].0
    &&& forall|k: int, i: int|
        #![trigger r[k], sites[i]]
        0 <= k < r.len() && r[k].0 <= i < r[k].1 ==> same_directive(sites[r[k].0], sites[i])
}

// ---------------------------------------------------------------------------
// Edits
// ---------------------------------------------------------------------------

/// The fortified text that replaces a token, by site kind.
pub open spec fn fortification(s: SiteView) -> Option<Seq<char>> {
    if s.kind == "key_flipped_to_literal_null"@ {
        Some("$.null"@)
    } else if s.kind == "key_flipped_to_literal_bool"@ {
        Some("$."@ + s.text)
    } else if s.kind == "key_field_flipped_to_literal_string"@ {
        Some("$."@ + s.text)
    } else if s.kind == "key_quoted_flipped_to_literal_string"@ {
        Some("$.\""@ + s.text + "\""@)
    } else {
        None
    }
}

/// An edit: replace the bytes `[start, end)` with `text`.
pub struct EditView {
    pub start: int,
    pub end: int,
    pub text: Seq<char>,
}

/// Whether a site's token gets fortified: every site not recommended
/// `embrace-v0.4`. An ambiguous token gets the safe fortification too, which
/// keeps the v0.3 reading.
pub open spec fn is_fortified(s: SiteView) -> bool {
    s.recommendation != Recommendation::EmbraceV04
}

/// The edit a site asks for: one for each fortified site with a byte range
/// and a known kind.
pub open spec fn site_edit(s: SiteView) -> Option<EditView> {
    if !is_fortified(s) {
        None
    } else {
        match (s.source_range, fortification(s)) {
            (Some((start, end)), Some(text)) => Some(
                EditView { start: start as int, end: end as int, text },
            ),
            _ => None,
        }
    }
}

/// The edits of a run of sites, in site order.
pub open spec fn edits_of(sites: Seq<SiteView>) -> Seq<EditView>
    decreases sites.len(),
{
    if sites.len() == 0 {
        Seq::empty()
    } else {
        let p = edits_of(sites.drop_last());
        match site_edit(sites.last()) {
            Some(e) => p.push(e),
            None => p,
        }
    }
}

/// Where `e` goes in `s` under a stable insertion by start: after every
/// trailing edit that does not start later than it.
pub open spec fn insertion_point(s: Seq<EditView>, e: EditView) -> int
    decreases s.len(),
{
    if s.len() == 0 || s.last().start <= e.start {
        s.len() as int
    } else {
        insertion_point(s.drop_last(), e)
    }
}

/// The edits stably sorted by start.
pub open spec fn sorted_by_start(es: Seq<EditView>) -> Seq<EditView>
    decreases es.len(),
{
    if es.len() == 0 {
        es
    } else {
        let s = sorted_by_start(es.drop_last());
        s.insert(insertion_point(s, es.last()), es.last())
    }
}

/// The edit's range lies within `b` and on character boundaries.
pub open spec fn edit_fits(b: Seq<u8>, e: EditView) -> bool {
    e.end <= b.len() && is_char_boundary(b, e.start) && is_char_boundary(b, e.end)
}

/// `b` with the edit applied when it fits, unchanged otherwise.
pub open spec fn apply_edit(b: Seq<u8>, e: EditView) -> Seq<u8> {
    if edit_fits(b, e) {
        b.subrange(0, e.start) + encode_utf8(e.text) + b.subrange(e.end, b.len() as int)
    } else {
        b
    }
}

/// The edits applied from the last to the first.
pub open spec fn apply_backwards(b: Seq<u8>, es: Seq<EditView>) -> Seq<u8>
    decreases es.len(),
{
    if es.len() == 0 {
        b
    } else {
        apply_backwards(apply_edit(b, es.last()), es.drop_last())
    }
}

/// No edit that fits when its turn comes has its start after its end (such
/// an edit cannot be carried out).
pub open spec fn edits_in_order(b: Seq<u8>, es: Seq<EditView>) -> bool
    decreases es.len(),
{
    if es.len() == 0 {
        true
    } else {
        (edit_fits(b, es.last()) ==> es.last().start <= es.last().end) && edits_in_order(
            apply_edit(b, es.last()),
            es.drop_last(),
        )
    }
}

/// The proposed rewrite of `selection` for the sites of its section: the
/// selection itself when no site asks for an edit; otherwise the edits,
/// sorted by start, applied from the last to the first on the UTF-8 bytes.
/// `None` when an edit that fits has its start after its end.
pub open spec fn proposed_rewrite(selection: Seq<char>, sites: Seq<SiteView>) -> Option<Seq<char>> {
    let es = edits_of(sites);
    if es.len() == 0 {
        Some(selection)
    } else {
        let sorted = sorted_by_start(es);
        let b = encode_utf8(selection);
        if edits_in_order(b, sorted) {
            Some(decode_utf8(apply_backwards(b, sorted)))
        } else {
            None
        }
    }
}

// ---------------------------------------------------------------------------
// Lemmas
// ---------------------------------------------------------------------------

pub proof fn lemma_encode_utf8_concat(a: Seq<char>, b: Seq<char>)
    ensures
        encode_utf8(a + b) == encode_utf8(a) + encode_utf8(b),
    decreases a.len(),
{
    if a.len() > 0 {
        assert((a + b).drop_first() =~= a.drop_first() + b);
        lemma_encode_utf8_concat(a.drop_first(), b);
        assert(encode_utf8(a + b) =~= encode_utf8(a) + encode_utf8(b));
    } else {
        assert(a + b =~= b);
    }
}

// ---------------------------------------------------------------------------
// Implementation
// ---------------------------------------------------------------------------

/// A pending replacement of the bytes `[start, end)` of a selection.
struct Edit {
    start: usize,
    end: usize,
    text: String,
}

impl View for Edit {
    type V = EditView;

    closed spec fn view(&self) -> EditView {
        EditView { start: self.start as int, end: self.end as int, text: self.text@ }
    }
}

spec fn edit_views(es: Seq<Edit>) -> Seq<EditView> {
    es.map_values(|e: Edit| e@)
}

/// The fortified text for a site of a known kind.
fn fortified_text(site: &Site) -> (r: Option<String>)
    ensures
        r matches Some(t) ==> fortification(site@) == Some(t@),
        r is None ==> fortification(site@) is None,
{
    if same_text(site.kind.as_str(), "key_flipped_to_literal_null") {
        Some("$.null".to_string())
    } else if same_text(site.kind.as_str(), "key_flipped_to_literal_bool") || same_text(
        &site.kind,
        "key_field_flipped_to_literal_string",
    ) {
        let mut t = "$.".to_string();
        t.append(site.text.as_str());
        Some(t)
    } else if same_text(site.kind.as_str(), "key_quoted_flipped_to_literal_string") {
        let mut t = "$.\"".to_string();
        t.append(site.text.as_str());
        t.append("\"");
        Some(t)
    } else {
        None
    }
}

fn collect_edits(sites: &[Site], lo: usize, hi: usize) -> (r: Vec<Edit>)
    requires
        lo <= hi <= sites@.len(),
    ensures
        edit_views(r@) == edits_of(site_views(sites@).subrange(lo as int, hi as int)),
{
    let ghost vs = site_views(sites@);
    let mut edits: Vec<Edit> = Vec::new();
    let mut i = lo;
    assert(vs.subrange(lo as int, lo as int) =~= Seq::<SiteView>::empty());
    assert(edit_views(edits@) =~= Seq::<EditView>::empty());
    while i < hi
        invariant
            lo <= i <= hi <= sites@.len(),
            vs == site_views(sites@),
            edit_views(edits@) == edits_of(vs.subrange(lo as int, i as int)),
        decreases hi - i,
    {
        let ghost t = vs.subrange(lo as int, i + 1);
        assert(t.drop_last() =~= vs.subrange(lo as int, i as int));
        assert(t.last() == sites@[i as int]@);
        let site = &sites[i];
        if site.recommendation != Recommendation::EmbraceV04 {
            match site.source_range {
                Some((start, end)) => {
                    match fortified_text(site) {
                        Some(text) => {
                            let ghost before = edit_views(edits@);
                            edits.push(Edit { start, end, text });
                            assert(edit_views(edits@) =~= before.push(site_edit(site@)->0));
                        },
                        None => {},
                    }
                },
                None => {},
            }
        }
        i = i + 1;
    }
    edits
}

/// Stably sorts the edits by start.
fn sort_edits(edits: Vec<Edit>) -> (r: Vec<Edit>)
    ensures
        edit_views(r@) == sorted_by_start(edit_views(edits@)),
{
    let ghost es = edit_views(edits@);
    let total = edits.len();
    let mut sorted: Vec<Edit> = Vec::new();
    let mut rest = edits;
    let mut taken: Vec<Edit> = Vec::new();
    // Take the edits from the front one by one, in their order.
    let mut remaining: Vec<Edit> = Vec::new();
    while rest.len() > 0
        invariant
            edit_views(remaining@) + edit_views(rest@).reverse() == es.reverse(),
        decreases rest.len(),
    {
        let ghost before_rest = edit_views(rest@);
        let ghost before_rem = edit_views(remaining@);
        let e = rest.pop().unwrap();
        remaining.push(e);
        assert(edit_views(rest@) =~= before_rest.drop_last());
        assert(edit_views(remaining@) =~= before_rem.push(before_rest.last()));
        assert(before_rest.reverse() =~= seq![before_rest.last()] + before_rest.drop_last().reverse());
        assert(edit_views(remaining@) + edit_views(rest@).reverse() =~= es.reverse());
    }
    assert(edit_views(rest@).reverse() =~= Seq::<EditView>::empty());
    assert(edit_views(remaining@) =~= es.reverse());
    // `remaining` holds the edits last-first; pop them to insert first-first.
    let mut n: usize = 0;
    assert(es.take(0) =~= Seq::<EditView>::empty());
    assert(edit_views(sorted@) =~= sorted_by_start(es.take(0)));
    while remaining.len() > 0
        invariant
            n + remaining@.len() == es.len() == total,
            edit_views(remaining@) == es.reverse().take(remaining@.len() as int),
            edit_views(sorted@) == sorted_by_start(es.take(n as int)),
        decreases remaining.len(),
    {
        let ghost before_rem = edit_views(remaining@);
        let e = remaining.pop().unwrap();
        proof {
            assert(before_rem.last() == es.reverse()[remaining@.len() as int]);
            assert(es.reverse()[remaining@.len() as int] == es[n as int]);
            assert(edit_views(remaining@) =~= es.reverse().take(remaining@.len() as int));
        }
        let ghost t = es.take(n + 1);
        assert(t.drop_last() =~= es.take(n as int));
        assert(t.last() == e@);
        let ghost s = edit_views(sorted@);
        let mut k = sorted.len();
        assert(s.take(k as int) =~= s);
        while k > 0 && sorted[k - 1].start > e.start
            invariant
                k <= sorted@.len(),
                s == edit_views(sorted@),
                insertion_point(s, e@) == insertion_point(s.take(k as int), e@),
            decreases k,
        {
            assert(s.take(k as int).drop_last() =~= s.take(k - 1));
            assert(s.take(k as int).last() == sorted@[k - 1]@);
            k = k - 1;
        }
        proof {
            if k > 0 {
                assert(s.take(k as int).last() == sorted@[k - 1]@);
            }
        }
        sorted.insert(k, e);
        assert(edit_views(sorted@) =~= s.insert(k as int, t.last()));
        n = n + 1;
    }
    assert(es.take(es.len() as int) =~= es);
    sorted
}

/// The proposed rewrite for the section `sites[lo..hi]`; `None` when an edit
/// would have to replace a range whose start lies after its end.
pub fn compute_proposed_rewrite(sites: &[Site], lo: usize, hi: usize) -> (r: Option<String>)
    requires
        lo < hi <= sites@.len(),
    ensures
        r matches Some(s) ==> proposed_rewrite(
            sites@[lo as int]@.selection,
            site_views(sites@).subrange(lo as int, hi as int),
        ) == Some(s@),
        r is None ==> proposed_rewrite(
            sites@[lo as int]@.selection,
            site_views(sites@).subrange(lo as int, hi as int),
        ) is None,
{
    let selection = &sites[lo].selection;
    let edits = collect_edits(sites, lo, hi);
    if edits.len() == 0 {
        return Some(selection.clone());
    }
    let sorted = sort_edits(edits);
    let ghost es = edit_views(sorted@);
    let ghost b0 = encode_utf8(selection@);
    let mut out = selection.clone();
    let mut j = sorted.len();
    assert(es.take(j as int) =~= es);
    while j > 0
        invariant
            j <= sorted@.len(),
            lo < hi <= sites@.len(),
            es == edit_views(sorted@),
            es == sorted_by_start(edits_of(site_views(sites@).subrange(lo as int, hi as int))),
            edits_of(site_views(sites@).subrange(lo as int, hi as int)).len() > 0,
            b0 == encode_utf8(sites@[lo as int]@.selection),
            apply_backwards(b0, es) == apply_backwards(encode_utf8(out@), es.take(j as int)),
            edits_in_order(b0, es) == edits_in_order(encode_utf8(out@), es.take(j as int)),
        decreases j,
    {
        let e = &sorted[j - 1];
        let ghost t = es.take(j as int);
        assert(t.drop_last() =~= es.take(j - 1));
        assert(t.last() == e@);
        let ghost b = encode_utf8(out@);
        proof {
            vstd::utf8::encode_utf8_valid_utf8(out@);
        }
        let s = out.as_str();
        assert(encode_utf8(s@) == b);
        let fits = e.end <= s.as_bytes().len() && s.is_char_boundary(e.start) && s.is_char_boundary(e.end);
        assert(fits == edit_fits(b, e@));
        if fits {
            if e.start > e.end {
                return None;
            }
            let (pre, _) = s.split_at(e.start);
            let (_, post) = s.split_at(e.end);
            let mut next = pre.to_string();
            next.append(e.text.as_str());
            next.append(post);
            proof {
                lemma_encode_utf8_concat(pre@, e.text@);
                lemma_encode_utf8_concat(pre@ + e.text@, post@);
                assert(encode_utf8(next@) =~= apply_edit(b, e@));
            }
            out = next;
        }
        j = j - 1;
    }
    proof {
        vstd::utf8::encode_utf8_decode_utf8(out@);
    }
    Some(out)
}

// ---------------------------------------------------------------------------
// Grouping
// ---------------------------------------------------------------------------

/// One `@connect` selection with at least one divergent token: the sites
/// `[start, end)` of the site list, and the proposed rewrite of the
/// selection they share.
pub struct Section {
    pub start: usize,
    pub end: usize,
    pub proposed_rewrite: String,
}

/// The proposed rewrite for the section `r` of `sites`.
pub open spec fn section_rewrite(sites: Seq<SiteView>, r: (int, int)) -> Option<Seq<char>> {
    proposed_rewrite(sites[r.0].selection, sites.subrange(r.0, r.1))
}

/// `secs` are the sections of `sites` with their proposed rewrites.
pub open spec fn sections_match(sites: Seq<SiteView>, secs: Seq<Section>) -> bool {
    let ranges = section_ranges(sites);
    &&& secs.len() == ranges.len()
    &&& forall|k: int|
        0 <= k < secs.len() ==> {
            &&& (#[trigger] secs[k]).start == ranges[k].0
            &&& secs[k].end == ranges[k].1
            &&& section_rewrite(sites, ranges[k]) == Some(secs[k].proposed_rewrite@)
        }
}

/// Every section of `sites` has a proposed rewrite.
pub open spec fn rewrites_defined(sites: Seq<SiteView>) -> bool {
    let ranges = section_ranges(sites);
    forall|k: int| 0 <= k < ranges.len() ==> (#[trigger] section_rewrite(sites, ranges[k])) is Some
}

/// The first sites of two adjacent sections come from different selections.
pub open spec fn ranges_maximal(sites: Seq<SiteView>, r: Seq<(int, int)>) -> bool {
    forall|k: int|
        0 <= k < r.len() - 1 ==> !same_directive(sites[r[k].0], #[trigger] sites[r[k + 1].0])
}

/// The sections partition the sites in order: they are nonempty, adjacent,
/// cover all sites, hold sites of a single selection each, and two adjacent
/// sections come from different selections.
pub proof fn lemma_section_ranges_partition(sites: Seq<SiteView>)
    ensures
        ranges_tile(sites, section_ranges(sites)),
        ranges_maximal(sites, section_ranges(sites)),
    decreases sites.len(),
{
    if sites.len() > 0 {
        let d = sites.drop_last();
        lemma_section_ranges_partition(d);
        let p = section_ranges(d);
        let r = section_ranges(sites);
        assert forall|i: int| 0 <= i < d.len() implies d[i] == sites[i] by {}
        if p.len() > 0 && same_directive(sites[p.last().0], sites.last()) {
            assert forall|k: int, i: int|
                #![trigger r[k], sites[i]]
                0 <= k < r.len() && r[k].0 <= i < r[k].1 implies same_directive(
                sites[r[k].0],
                sites[i],
            ) by {
                if i < sites.len() - 1 {
                    assert(d[i] == sites[i]);
                    assert(p[k].0 <= i < p[k].1);
                }
            }
            assert forall|k: int| 0 <= k < r.len() - 1 implies !same_directive(
                sites[r[k].0],
                #[trigger] sites[r[k + 1].0],
            ) by {
                assert(r[k] == p[k]);
                assert(r[k + 1].0 == p[k + 1].0);
            }
        } else {
            assert forall|k: int, i: int|
                #![trigger r[k], sites[i]]
                0 <= k < r.len() && r[k].0 <= i < r[k].1 implies same_directive(
                sites[r[k].0],
                sites[i],
            ) by {
                if k < p.len() {
                    assert(p[k].0 <= i < p[k].1);
                }
            }
            assert forall|k: int| 0 <= k < r.len() - 1 implies !same_directive(
                sites[r[k].0],
                #[trigger] sites[r[k + 1].0],
            ) by {
                if k < p.len() - 1 {
                    assert(r[k + 1] == p[k + 1]);
                }
            }
        }
    }
}

pub open spec fn range_views(rs: Seq<(usize, usize)>) -> Seq<(int, int)> {
    rs.map_values(|p: (usize, usize)| (p.0 as int, p.1 as int))
}

fn same_selection_site(a: &Site, b: &Site) -> (r: bool)
    ensures
        r == same_directive(a@, b@),
{
    a.file == b.file && a.coordinate == b.coordinate && a.selection == b.selection
}

/// The index ranges of the sections of `sites`.
fn section_bounds(sites: &[Site]) -> (r: Vec<(usize, usize)>)
    ensures
        range_views(r@) == section_ranges(site_views(sites@)),
{
    let ghost vs = site_views(sites@);
    let n = sites.len();
    let mut ranges: Vec<(usize, usize)> = Vec::new();
    let mut i: usize = 0;
    assert(vs.take(0) =~= Seq::<SiteView>::empty());
    assert(range_views(ranges@) =~= section_ranges(vs.take(0)));
    while i < n
        invariant
            i <= n == sites@.len(),
            vs == site_views(sites@),
            range_views(ranges@) == section_ranges(vs.take(i as int)),
        decreases n - i,
    {
        let ghost t = vs.take(i + 1);
        assert(t.drop_last() =~= vs.take(i as int));
        assert(t.last() == sites@[i as int]@);
        let ghost p = section_ranges(vs.take(i as int));
        assert(p.len() > 0 ==> 0 <= p.last().0 < i) by {
            lemma_section_ranges_partition(vs.take(i as int));
            if p.len() > 0 {
                assert(p[p.len() - 1].0 < p[p.len() - 1].1);
            }
        }
        if ranges.len() > 0 && same_selection_site(&sites[ranges[ranges.len() - 1].0], &sites[i]) {
            assert(p.last().0 == ranges@[ranges@.len() - 1].0);
            assert(t[p.last().0] == sites@[p.last().0]@);
            let last = ranges.pop().unwrap();
            ranges.push((last.0, i + 1));
            assert(range_views(ranges@) =~= p.update(p.len() - 1, (p.last().0, i + 1)));
        } else {
            proof {
                if p.len() > 0 {
                    assert(p.last().0 == ranges@[ranges@.len() - 1].0);
                    assert(t[p.last().0] == sites@[p.last().0]@);
                }
            }
            ranges.push((i, i + 1));
            assert(range_views(ranges@) =~= p.push((i as int, i + 1)));
        }
        i = i + 1;
    }
    assert(vs.take(n as int) =~= vs);
    ranges
}

/// Groups the sites into sections, one per run of consecutive sites from
/// the same selection, each with its proposed rewrite. `None` when some
/// section's rewrite would have to replace a range whose start lies after
/// its end.
pub fn group_into_sections(sites: &[Site]) -> (r: Option<Vec<Section>>)
    ensures
        r matches Some(secs) ==> sections_match(site_views(sites@), secs@),
        r is None <==> !rewrites_defined(site_views(sites@)),
{
    let ghost vs = site_views(sites@);
    let bounds = section_bounds(sites);
    proof {
        lemma_section_ranges_partition(vs);
    }
    let ghost ranges = section_ranges(vs);
    let mut secs: Vec<Section> = Vec::new();
    let mut k: usize = 0;
    while k < bounds.len()
        invariant
            k <= bounds@.len() == ranges.len(),
            vs == site_views(sites@),
            ranges == section_ranges(vs),
            range_views(bounds@) == ranges,
            ranges_tile(vs, ranges),
            secs@.len() == k,
            forall|j: int|
                0 <= j < k ==> {
                    &&& (#[trigger] secs@[j]).start == ranges[j].0
                    &&& secs@[j].end == ranges[j].1
                    &&& section_rewrite(vs, ranges[j]) == Some(secs@[j].proposed_rewrite@)
                },
        decreases bounds.len() - k,
    {
        let (lo, hi) = bounds[k];
        assert(ranges[k as int] == (lo as int, hi as int));
        assert(lo < hi);
        assert(vs.subrange(lo as int, hi as int) =~= site_views(sites@).subrange(lo as int, hi as int));
        match compute_proposed_rewrite(sites, lo, hi) {
            Some(text) => {
                secs.push(Section { start: lo, end: hi, proposed_rewrite: text });
            },
            None => {
                assert(section_rewrite(vs, ranges[k as int]) is None);
                return None;
            },
        }
        k = k + 1;
    }
    assert(sections_match(vs, secs@));
    assert forall|j: int| 0 <= j < ranges.len() implies (#[trigger] section_rewrite(
        vs,
        ranges[j],
    )) is Some by {
        assert(secs@[j].start == ranges[j].0);
    }
    Some(secs)
}

} // verus!
