//! The `recommendations.md` document: a header, then one section per
//! `@connect` selection with a divergent token, each with machine-readable
//! site comments, the original selection, the reasons, the proposed rewrite
//! and a two-option decision checklist.
use vstd::prelude::*;
use crate::decode::{line_views, split_lines};
use crate::model::{FollowedBy, Recommendation, Site, SiteView, site_views};
use crate::sites::{BrokenSelection, BrokenSelectionView, broken_views};
use crate::rewrite::{Section, group_into_sections, rewrites_defined, section_ranges, section_rewrite};
use crate::text::{
    append_chars, chars_of, decimal, push_char, push_decimal, replace_all, replace_str, split_on,
    strip_cr, text_lines,
};

verus! {

// ---------------------------------------------------------------------------
// Specification
// ---------------------------------------------------------------------------

pub open spec fn followed_by_text(f: FollowedBy) -> Seq<char> {
    match f {
        FollowedBy::Nothing => "nothing"@,
        FollowedBy::KeyAccess => "key_access"@,
        FollowedBy::Method => "method"@,
        FollowedBy::SubSelection => "sub_selection"@,
        FollowedBy::Question => "question"@,
        FollowedBy::Expr => "expr"@,
    }
}

/// `s` with every dash that follows a dash written as `\-`: no two dashes
/// stay side by side (`--` becomes `-\-`, `---` becomes `-\-\-`).
pub open spec fn dashes_escaped(s: Seq<char>) -> Seq<char>
    decreases s.len(),
{
    if s.len() == 0 {
        s
    } else {
        let p = dashes_escaped(s.drop_last());
        if s.last() == '-' && s.len() >= 2 && s[s.len() - 2] == '-' {
            p + seq!['\\', '-']
        } else {
            p.push(s.last())
        }
    }
}

/// `s` made safe for an HTML comment field: newlines written as `\n`, no
/// two dashes side by side, all in double quotes.
pub open spec fn quoted_for_comment(s: Seq<char>) -> Seq<char> {
    "\""@ + dashes_escaped(replace_all(s, "\n"@, "\\n"@)) + "\""@
}

/// Each line followed by a newline.
pub open spec fn lines_block(ls: Seq<Seq<char>>) -> Seq<char>
    decreases ls.len(),
{
    if ls.len() == 0 {
        Seq::empty()
    } else {
        lines_block(ls.drop_last()) + ls.last() + "\n"@
    }
}

/// The body of a fenced block: the lines of `body`, each ended by a newline.
pub open spec fn block_lines(body: Seq<char>) -> Seq<char> {
    lines_block(text_lines(body))
}

pub open spec fn document_header(root: Seq<char>, version: Seq<char>, at: Seq<char>) -> Seq<char> {
    "<!-- connect-migrate recommendations v1 -->\n"@ + "<!-- generator: connect-migrate "@
        + version + " -->\n"@ + "<!-- generated-at: "@ + at + " -->\n"@
        + "<!-- project-root: "@ + root + " -->\n"@ + "\n"@
        + "# `connect/v0.3` → `connect/v0.4` migration recommendations\n"@ + "\n"@
}

pub open spec fn nothing_to_do() -> Seq<char> {
    "No sites in this project need migration — every `@connect(selection: …)` parses identically under v0.3 and v0.4.\n"@
}

pub open spec fn instructions(sections: nat, tokens: nat) -> Seq<char> {
    decimal(sections) + " section(s) need a decision ("@ + decimal(tokens)
        + " divergent token(s) across "@ + decimal(sections)
        + " `@connect` selection(s)). For each section, edit the **Proposed rewrite** block as needed and check the box that reflects your decision, then run:\n"@
        + "\n"@ + "    connect-migrate apply recommendations.md\n"@ + "\n"@
        + "Each section has two decision options. **Exactly one must be checked.** The defaults reflect what the analyzer recommends; edit the Proposed rewrite block, flip the checkbox, or both.\n"@
        + "\n"@
        + "- **apply the rewrite above** — apply uses the contents of the Proposed rewrite block as the new selection.\n"@
        + "- **leave the source unchanged** — apply makes no change (accept the v0.4 literal reading).\n"@
        + "\n"@
}

pub open spec fn comment_identity(s: SiteView) -> Seq<char> {
    "<!-- connect-migrate site v1\n"@ + "  id: "@ + s.id + "\n"@ + "  file: "@ + s.file + "\n"@
}

pub open spec fn comment_position(s: SiteView) -> Seq<char> {
    (match s.line {
        Some(l) => "  line: "@ + decimal(l as nat) + "\n"@,
        None => Seq::empty(),
    }) + (match s.col {
        Some(c) => "  col: "@ + decimal(c as nat) + "\n"@,
        None => Seq::empty(),
    })
}

pub open spec fn comment_details(s: SiteView) -> Seq<char> {
    "  coordinate: "@ + s.coordinate + "\n"@ + "  kind: "@ + s.kind + "\n"@ + (if s.text.len() > 0 {
        "  text: "@ + quoted_for_comment(s.text) + "\n"@
    } else {
        Seq::empty()
    }) + "  followed_by: "@ + followed_by_text(s.followed_by) + "\n"@ + "  recommendation: "@
        + s.recommendation.name() + "\n"@ + "-->\n"@
}

/// The identity comment of one site: id, file, line and column when known,
/// coordinate, kind, token text when not empty, what follows the token, and
/// the recommendation.
pub open spec fn site_comment(s: SiteView) -> Seq<char> {
    comment_identity(s) + comment_position(s) + comment_details(s)
}

pub open spec fn site_comments(ss: Seq<SiteView>) -> Seq<char>
    decreases ss.len(),
{
    if ss.len() == 0 {
        Seq::empty()
    } else {
        site_comments(ss.drop_last()) + site_comment(ss.last())
    }
}

pub open spec fn reason_bullets(ss: Seq<SiteView>) -> Seq<char>
    decreases ss.len(),
{
    if ss.len() == 0 {
        Seq::empty()
    } else {
        reason_bullets(ss.drop_last()) + "- "@ + ss.last().reasoning + "\n"@
    }
}

/// Whether a section's checklist defaults to applying the rewrite: when
/// some site of it is recommended `keep-v0.3` or `???` (every such token is
/// fortified in the rewrite); "leave unchanged" when all are `embrace-v0.4`.
pub open spec fn apply_by_default(ss: Seq<SiteView>) -> bool {
    exists|i: int| 0 <= i < ss.len() && (#[trigger] ss[i]).recommendation != Recommendation::EmbraceV04
}

/// The decision checklist, with exactly one of its two boxes checked.
pub open spec fn decision(apply: bool) -> Seq<char> {
    "**Decide:**\n"@ + "- ["@ + (if apply {
        "x"@
    } else {
        " "@
    }) + "] apply the rewrite above\n"@ + "- ["@ + (if apply {
        " "@
    } else {
        "x"@
    }) + "] leave the source unchanged\n"@ + "\n"@
}

pub open spec fn section_heading(n: nat, total: nat, first: SiteView) -> Seq<char> {
    "---\n"@ + "\n"@ + "## section "@ + decimal(n) + " of "@ + decimal(total) + " — `"@ + first.file
        + "` (`"@ + first.coordinate + "`)\n"@ + "\n"@
}

pub open spec fn original_block(selection: Seq<char>) -> Seq<char> {
    "\n"@ + "**Original selection:**\n"@ + "\n"@ + "```graphql\n"@ + block_lines(selection)
        + "```\n"@ + "\n"@
}

pub open spec fn proposed_block(rewrite: Seq<char>) -> Seq<char> {
    "\n"@ + "**Proposed rewrite** (edit if needed):\n"@ + "\n"@ + "```graphql\n"@ + block_lines(
        rewrite,
    ) + "```\n"@ + "\n"@
}

/// Section `n` of `total`, for the sites `ss` of one selection and the
/// proposed rewrite `rewrite` of that selection.
pub open spec fn section_text(n: nat, total: nat, ss: Seq<SiteView>, rewrite: Seq<char>) -> Seq<char> {
    section_heading(n, total, ss[0]) + site_comments(ss) + original_block(ss[0].selection)
        + reason_bullets(ss) + proposed_block(rewrite) + decision(apply_by_default(ss))
}

/// The first `m` sections of the document.
pub open spec fn sections_text(sites: Seq<SiteView>, m: nat) -> Seq<char>
    decreases m,
{
    if m == 0 {
        Seq::empty()
    } else {
        let ranges = section_ranges(sites);
        let r = ranges[m - 1];
        sections_text(sites, (m - 1) as nat) + section_text(
            m,
            ranges.len(),
            sites.subrange(r.0, r.1),
            section_rewrite(sites, r)->0,
        )
    }
}

/// The entry of a selection that parses under neither spec.
pub open spec fn broken_entry(b: BrokenSelectionView) -> Seq<char> {
    "- `"@ + b.file + "` (`"@ + b.coordinate + "`), line "@ + decimal(b.line as nat) + ", col "@
        + decimal(b.col as nat) + "\n"@
}

pub open spec fn broken_entries(bs: Seq<BrokenSelectionView>) -> Seq<char>
    decreases bs.len(),
{
    if bs.len() == 0 {
        Seq::empty()
    } else {
        broken_entries(bs.drop_last()) + broken_entry(bs.last())
    }
}

/// The "could not parse" part at the top of the document: the selections
/// that parse under neither spec, one entry each; nothing when there are
/// none.
pub open spec fn could_not_parse(bs: Seq<BrokenSelectionView>) -> Seq<char> {
    if bs.len() == 0 {
        Seq::empty()
    } else {
        "## could not parse\n"@ + "\n"@
            + "These `@connect` selections parse under neither `connect/v0.3` nor `connect/v0.4`. They are not migration targets (they were already broken), but they are worth fixing:\n"@
            + "\n"@ + broken_entries(bs) + "\n"@
    }
}

/// The recommendations document for the sites of a project and its
/// selections that parse under neither spec; `None` when a proposed rewrite
/// cannot be carried out (an edit whose start lies after its end).
pub open spec fn recommendations_document(
    sites: Seq<SiteView>,
    broken: Seq<BrokenSelectionView>,
    root: Seq<char>,
    version: Seq<char>,
    at: Seq<char>,
) -> Option<Seq<char>> {
    let head = document_header(root, version, at) + could_not_parse(broken);
    if sites.len() == 0 {
        Some(head + nothing_to_do())
    } else if !rewrites_defined(sites) {
        None
    } else {
        let total = section_ranges(sites).len();
        Some(head + instructions(total, sites.len()) + sections_text(sites, total))
    }
}

// ---------------------------------------------------------------------------
// Implementation
// ---------------------------------------------------------------------------

/// The report name of a `FollowedBy` value.
pub fn followed_by_name(f: FollowedBy) -> (r: &'static str)
    ensures
        r@ == followed_by_text(f),
{
    match f {
        FollowedBy::Nothing => "nothing",
        FollowedBy::KeyAccess => "key_access",
        FollowedBy::Method => "method",
        FollowedBy::SubSelection => "sub_selection",
        FollowedBy::Question => "question",
        FollowedBy::Expr => "expr",
    }
}

/// Escapes a string for an HTML comment field and quotes it.
pub fn quote_for_comment(s: &str) -> (r: String)
    ensures
        r@ == quoted_for_comment(s@),
{
    proof {
        reveal_strlit("\n");
        reveal_strlit("\\-");
    }
    let a = replace_str(s, "\n", "\\n");
    let v = chars_of(a.as_str());
    let mut body = String::new();
    let mut i: usize = 0;
    assert(v@.take(0) =~= Seq::<char>::empty());
    while i < v.len()
        invariant
            i <= v@.len(),
            body@ == dashes_escaped(v@.take(i as int)),
        decreases v.len() - i,
    {
        let ghost t = v@.take(i + 1);
        assert(t.drop_last() =~= v@.take(i as int));
        assert(t.last() == v@[i as int]);
        if i > 0 {
            assert(t[t.len() - 2] == v@[i - 1]);
        }
        let c = v[i];
        if c == '-' && i > 0 && v[i - 1] == '-' {
            body.append("\\-");
            proof {
                reveal_strlit("\\-");
            }
            assert("\\-"@ =~= seq!['\\', '-']);
        } else {
            push_char(&mut body, c);
        }
        i = i + 1;
    }
    assert(v@.take(v@.len() as int) =~= v@);
    let mut out = "\"".to_string();
    out.append(body.as_str());
    out.append("\"");
    out
}

/// Appends the lines of `body`, each followed by a newline.
pub fn write_block_lines(out: &mut String, body: &str)
    ensures
        final(out)@ == old(out)@ + block_lines(body@),
{
    let v = chars_of(body);
    let pieces = split_lines(&v, 0, v.len());
    assert(v@.subrange(0, v@.len() as int) =~= body@);
    let ghost ps = line_views(pieces@);
    proof {
        crate::text::lemma_split_on_nonempty(body@, '\n');
    }
    let np = pieces.len();
    let kept = if pieces[np - 1].len() == 0 {
        np - 1
    } else {
        np
    };
    let ghost lines = text_lines(body@);
    assert(ps == crate::text::split_on(body@, '\n'));
    assert(lines.len() == kept);
    let ghost base = out@;
    let mut j: usize = 0;
    assert(lines.take(0) =~= Seq::<Seq<char>>::empty());
    while j < kept
        invariant
            j <= kept <= np == pieces@.len(),
            ps == line_views(pieces@),
            lines.len() == kept,
            forall|i: int|
                0 <= i < kept ==> #[trigger] lines[i] == (if i + 1 < np {
                    strip_cr(ps[i])
                } else {
                    ps[i]
                }),
            out@ == base + lines_block(lines.take(j as int)),
        decreases kept - j,
    {
        let piece = &pieces[j];
        let n = piece.len();
        let m = if j + 1 < np && n > 0 && piece[n - 1] == '\r' {
            n - 1
        } else {
            n
        };
        let mut k: usize = 0;
        let ghost before = out@;
        while k < m
            invariant
                k <= m <= n == pieces@[j as int]@.len(),
                j < pieces@.len(),
                out@ == before + pieces@[j as int]@.take(k as int),
            decreases m - k,
        {
            push_char(out, pieces[j][k]);
            assert(pieces@[j as int]@.take(k + 1) =~= pieces@[j as int]@.take(k as int).push(
                pieces@[j as int]@[k as int],
            ));
            k = k + 1;
        }
        push_char(out, '\n');
        proof {
            reveal_strlit("\n");
            let l = pieces@[j as int]@;
            assert(ps[j as int] == l);
            assert(lines[j as int] =~= l.take(m as int));
            let t = lines.take(j + 1);
            assert(t.drop_last() =~= lines.take(j as int));
            assert(t.last() == lines[j as int]);
            assert(out@ =~= base + lines_block(t));
        }
        j = j + 1;
    }
    assert(lines.take(kept as int) =~= lines);
}

fn push_line3(out: &mut String, a: &str, b: &str, c: &str)
    ensures
        final(out)@ == old(out)@ + a@ + b@ + c@,
{
    out.append(a);
    out.append(b);
    out.append(c);
}

fn push_number_line(out: &mut String, label: &str, n: usize)
    ensures
        final(out)@ == old(out)@ + label@ + decimal(n as nat) + "\n"@,
{
    out.append(label);
    push_decimal(out, n);
    out.append("\n");
}

fn write_comment_identity(out: &mut String, site: &Site)
    ensures
        final(out)@ == old(out)@ + comment_identity(site@),
{
    let ghost base = out@;
    out.append("<!-- connect-migrate site v1\n");
    push_line3(out, "  id: ", site.id.as_str(), "\n");
    push_line3(out, "  file: ", site.file.as_str(), "\n");
    assert(out@ =~= base + comment_identity(site@));
}

fn write_comment_position(out: &mut String, site: &Site)
    ensures
        final(out)@ == old(out)@ + comment_position(site@),
{
    let ghost base = out@;
    match site.line {
        Some(l) => push_number_line(out, "  line: ", l),
        None => {},
    }
    match site.col {
        Some(c) => push_number_line(out, "  col: ", c),
        None => {},
    }
    assert(out@ =~= base + comment_position(site@));
}

fn write_comment_details(out: &mut String, site: &Site)
    ensures
        final(out)@ == old(out)@ + comment_details(site@),
{
    let ghost base = out@;
    push_line3(out, "  coordinate: ", site.coordinate.as_str(), "\n");
    push_line3(out, "  kind: ", site.kind.as_str(), "\n");
    if !site.text.as_str().is_empty() {
        let q = quote_for_comment(site.text.as_str());
        push_line3(out, "  text: ", q.as_str(), "\n");
    }
    push_line3(out, "  followed_by: ", followed_by_name(site.followed_by), "\n");
    push_line3(out, "  recommendation: ", site.recommendation.as_str(), "\n");
    out.append("-->\n");
    assert(out@ =~= base + comment_details(site@));
}

/// Appends the identity comment of one site.
fn write_site_comment(out: &mut String, site: &Site)
    ensures
        final(out)@ == old(out)@ + site_comment(site@),
{
    let ghost base = out@;
    write_comment_identity(out, site);
    write_comment_position(out, site);
    write_comment_details(out, site);
    assert(out@ =~= base + site_comment(site@));
}

/// Appends the identity comments of the sites `sites[lo..hi]`.
fn write_site_comments(out: &mut String, sites: &[Site], lo: usize, hi: usize)
    requires
        lo <= hi <= sites@.len(),
    ensures
        final(out)@ == old(out)@ + site_comments(site_views(sites@).subrange(lo as int, hi as int)),
{
    let ghost vs = site_views(sites@);
    let ghost base = out@;
    let mut i = lo;
    assert(vs.subrange(lo as int, lo as int) =~= Seq::<SiteView>::empty());
    while i < hi
        invariant
            lo <= i <= hi <= sites@.len(),
            vs == site_views(sites@),
            out@ == base + site_comments(vs.subrange(lo as int, i as int)),
        decreases hi - i,
    {
        let ghost t = vs.subrange(lo as int, i + 1);
        assert(t.drop_last() =~= vs.subrange(lo as int, i as int));
        assert(t.last() == sites@[i as int]@);
        write_site_comment(out, &sites[i]);
        assert(out@ =~= base + site_comments(t));
        i = i + 1;
    }
}

/// Appends the reason bullets of the sites `sites[lo..hi]`.
fn write_reasons(out: &mut String, sites: &[Site], lo: usize, hi: usize)
    requires
        lo <= hi <= sites@.len(),
    ensures
        final(out)@ == old(out)@ + reason_bullets(site_views(sites@).subrange(lo as int, hi as int)),
{
    let ghost vs = site_views(sites@);
    let ghost base = out@;
    let mut i = lo;
    assert(vs.subrange(lo as int, lo as int) =~= Seq::<SiteView>::empty());
    while i < hi
        invariant
            lo <= i <= hi <= sites@.len(),
            vs == site_views(sites@),
            out@ == base + reason_bullets(vs.subrange(lo as int, i as int)),
        decreases hi - i,
    {
        let ghost t = vs.subrange(lo as int, i + 1);
        assert(t.drop_last() =~= vs.subrange(lo as int, i as int));
        assert(t.last() == sites@[i as int]@);
        push_line3(out, "- ", sites[i].reasoning.as_str(), "\n");
        assert(out@ =~= base + reason_bullets(t));
        i = i + 1;
    }
}

fn write_decision(out: &mut String, apply: bool)
    ensures
        final(out)@ == old(out)@ + decision(apply),
{
    let ghost base = out@;
    out.append("**Decide:**\n");
    push_line3(
        out,
        "- [",
        if apply {
            "x"
        } else {
            " "
        },
        "] apply the rewrite above\n",
    );
    push_line3(
        out,
        "- [",
        if apply {
            " "
        } else {
            "x"
        },
        "] leave the source unchanged\n",
    );
    out.append("\n");
    assert(out@ =~= base + decision(apply));
}

fn write_heading(out: &mut String, n: usize, total: usize, first: &Site)
    ensures
        final(out)@ == old(out)@ + section_heading(n as nat, total as nat, first@),
{
    let ghost base = out@;
    out.append("---\n");
    out.append("\n");
    out.append("## section ");
    push_decimal(out, n);
    out.append(" of ");
    push_decimal(out, total);
    push_line3(out, " — `", first.file.as_str(), "` (`");
    push_line3(out, first.coordinate.as_str(), "`)\n", "\n");
    assert(out@ =~= base + section_heading(n as nat, total as nat, first@));
}

fn write_original(out: &mut String, selection: &str)
    ensures
        final(out)@ == old(out)@ + original_block(selection@),
{
    let ghost base = out@;
    out.append("\n");
    out.append("**Original selection:**\n");
    out.append("\n");
    out.append("```graphql\n");
    write_block_lines(out, selection);
    out.append("```\n");
    out.append("\n");
    assert(out@ =~= base + original_block(selection@));
}

fn write_proposed(out: &mut String, rewrite: &str)
    ensures
        final(out)@ == old(out)@ + proposed_block(rewrite@),
{
    let ghost base = out@;
    out.append("\n");
    out.append("**Proposed rewrite** (edit if needed):\n");
    out.append("\n");
    out.append("```graphql\n");
    write_block_lines(out, rewrite);
    out.append("```\n");
    out.append("\n");
    assert(out@ =~= base + proposed_block(rewrite@));
}

/// Whether some site of `sites[lo..hi]` is not recommended `embrace-v0.4`.
fn applies_by_default(sites: &[Site], lo: usize, hi: usize) -> (r: bool)
    requires
        lo <= hi <= sites@.len(),
    ensures
        r == apply_by_default(site_views(sites@).subrange(lo as int, hi as int)),
{
    let ghost ss = site_views(sites@).subrange(lo as int, hi as int);
    let mut i = lo;
    while i < hi
        invariant
            lo <= i <= hi <= sites@.len(),
            ss == site_views(sites@).subrange(lo as int, hi as int),
            forall|j: int| lo <= j < i ==> (#[trigger] sites@[j]).recommendation
                == Recommendation::EmbraceV04,
        decreases hi - i,
    {
        if sites[i].recommendation != Recommendation::EmbraceV04 {
            assert(ss[i - lo] == sites@[i as int]@);
            return true;
        }
        i = i + 1;
    }
    assert forall|j: int| 0 <= j < ss.len() implies (#[trigger] ss[j]).recommendation
        == Recommendation::EmbraceV04 by {
        assert(ss[j] == sites@[lo + j]@);
    }
    false
}

/// Appends one section.
fn write_section(out: &mut String, sites: &[Site], n: usize, total: usize, section: &Section)
    requires
        section.start < section.end <= sites@.len(),
    ensures
        final(out)@ == old(out)@ + section_text(
            n as nat,
            total as nat,
            site_views(sites@).subrange(section.start as int, section.end as int),
            section.proposed_rewrite@,
        ),
{
    let ghost base = out@;
    let ghost ss = site_views(sites@).subrange(section.start as int, section.end as int);
    let first = &sites[section.start];
    assert(ss[0] == first@);
    write_heading(out, n, total, first);
    write_site_comments(out, sites, section.start, section.end);
    write_original(out, first.selection.as_str());
    write_reasons(out, sites, section.start, section.end);
    write_proposed(out, section.proposed_rewrite.as_str());
    let apply = applies_by_default(sites, section.start, section.end);
    write_decision(out, apply);
    assert(out@ =~= base + section_text(n as nat, total as nat, ss, section.proposed_rewrite@));
}

fn write_could_not_parse(out: &mut String, broken: &[BrokenSelection])
    ensures
        final(out)@ == old(out)@ + could_not_parse(broken_views(broken@)),
{
    if broken.len() == 0 {
        assert(out@ =~= old(out)@ + could_not_parse(broken_views(broken@)));
        return;
    }
    let ghost base = out@;
    let ghost bs = broken_views(broken@);
    out.append("## could not parse\n");
    out.append("\n");
    out.append(
        "These `@connect` selections parse under neither `connect/v0.3` nor `connect/v0.4`. They are not migration targets (they were already broken), but they are worth fixing:\n",
    );
    out.append("\n");
    let ghost mid = out@;
    let mut i: usize = 0;
    assert(bs.take(0) =~= Seq::<BrokenSelectionView>::empty());
    assert(out@ =~= mid + broken_entries(bs.take(0)));
    while i < broken.len()
        invariant
            i <= broken@.len(),
            bs == broken_views(broken@),
            out@ == mid + broken_entries(bs.take(i as int)),
        decreases broken.len() - i,
    {
        let ghost t = bs.take(i + 1);
        assert(t.drop_last() =~= bs.take(i as int));
        assert(t.last() == broken@[i as int]@);
        let b = &broken[i];
        let ghost before = out@;
        push_line3(out, "- `", b.file.as_str(), "` (`");
        out.append(b.coordinate.as_str());
        out.append("`), line ");
        push_decimal(out, b.line);
        out.append(", col ");
        push_decimal(out, b.col);
        out.append("\n");
        assert(out@ =~= before + broken_entry(b@));
        i = i + 1;
    }
    assert(bs.take(bs.len() as int) =~= bs);
    out.append("\n");
    assert(out@ =~= base + could_not_parse(bs));
}

fn write_header(out: &mut String, project_root: &str, generator_version: &str, generated_at: &str)
    ensures
        final(out)@ == old(out)@ + document_header(project_root@, generator_version@, generated_at@),
{
    let ghost base = out@;
    out.append("<!-- connect-migrate recommendations v1 -->\n");
    push_line3(out, "<!-- generator: connect-migrate ", generator_version, " -->\n");
    push_line3(out, "<!-- generated-at: ", generated_at, " -->\n");
    push_line3(out, "<!-- project-root: ", project_root, " -->\n");
    out.append("\n");
    out.append("# `connect/v0.3` → `connect/v0.4` migration recommendations\n");
    out.append("\n");
    assert(out@ =~= base + document_header(project_root@, generator_version@, generated_at@));
}

fn write_instructions(out: &mut String, sections: usize, tokens: usize)
    ensures
        final(out)@ == old(out)@ + instructions(sections as nat, tokens as nat),
{
    let ghost base = out@;
    push_decimal(out, sections);
    out.append(" section(s) need a decision (");
    push_decimal(out, tokens);
    out.append(" divergent token(s) across ");
    push_decimal(out, sections);
    out.append(
        " `@connect` selection(s)). For each section, edit the **Proposed rewrite** block as needed and check the box that reflects your decision, then run:\n",
    );
    out.append("\n");
    out.append("    connect-migrate apply recommendations.md\n");
    out.append("\n");
    out.append(
        "Each section has two decision options. **Exactly one must be checked.** The defaults reflect what the analyzer recommends; edit the Proposed rewrite block, flip the checkbox, or both.\n",
    );
    out.append("\n");
    out.append(
        "- **apply the rewrite above** — apply uses the contents of the Proposed rewrite block as the new selection.\n",
    );
    out.append(
        "- **leave the source unchanged** — apply makes no change (accept the v0.4 literal reading).\n",
    );
    out.append("\n");
    assert(out@ =~= base + instructions(sections as nat, tokens as nat));
}

/// The text of `recommendations.md` for the sites of a project, with the
/// given project root, generator version and generation time. `None` when a
/// proposed rewrite would have to replace a byte range whose start lies
/// after its end.
pub fn render_markdown(
    sites: &[Site],
    broken: &[BrokenSelection],
    project_root: &str,
    generator_version: &str,
    generated_at: &str,
) -> (r: Option<String>)
    ensures
        r matches Some(s) ==> recommendations_document(
            site_views(sites@),
            broken_views(broken@),
            project_root@,
            generator_version@,
            generated_at@,
        ) == Some(s@),
        r is None ==> recommendations_document(
            site_views(sites@),
            broken_views(broken@),
            project_root@,
            generator_version@,
            generated_at@,
        ) is None,
{
    let ghost vs = site_views(sites@);
    let mut out = String::new();
    write_header(&mut out, project_root, generator_version, generated_at);
    write_could_not_parse(&mut out, broken);
    if sites.len() == 0 {
        out.append(
            "No sites in this project need migration — every `@connect(selection: …)` parses identically under v0.3 and v0.4.\n",
        );
        return Some(out);
    }
    let sections = match group_into_sections(sites) {
        Some(s) => s,
        None => {
            return None;
        },
    };
    let ghost head = out@;
    let total = sections.len();
    write_instructions(&mut out, total, sites.len());
    let ghost mid = out@;
    let ghost ranges = section_ranges(vs);
    proof {
        crate::rewrite::lemma_section_ranges_partition(vs);
        assert forall|j: int| 0 <= j < total implies {
            &&& (#[trigger] sections@[j]).start == ranges[j].0
            &&& sections@[j].end == ranges[j].1
            &&& section_rewrite(vs, ranges[j]) == Some(sections@[j].proposed_rewrite@)
            &&& 0 <= ranges[j].0 < ranges[j].1 <= vs.len()
        } by {
            assert(0 <= ranges[j].0 < ranges[j].1 <= vs.len());
        }
    }
    let mut k: usize = 0;
    while k < total
        invariant
            k <= total == sections@.len() == ranges.len(),
            vs == site_views(sites@),
            ranges == section_ranges(vs),
            forall|j: int|
                0 <= j < total ==> {
                    &&& (#[trigger] sections@[j]).start == ranges[j].0
                    &&& sections@[j].end == ranges[j].1
                    &&& section_rewrite(vs, ranges[j]) == Some(sections@[j].proposed_rewrite@)
                    &&& 0 <= ranges[j].0 < ranges[j].1 <= vs.len()
                },
            out@ == mid + sections_text(vs, k as nat),
        decreases total - k,
    {
        let section = &sections[k];
        let ghost r = ranges[k as int];
        assert(sections@[k as int].start == r.0);
        write_section(&mut out, sites, k + 1, total, section);
        proof {
            let sec = section_text(
                (k + 1) as nat,
                total as nat,
                vs.subrange(r.0, r.1),
                section_rewrite(vs, r)->0,
            );
            assert(sections_text(vs, (k + 1) as nat) == sections_text(vs, k as nat) + sec);
            vstd::seq_lib::lemma_concat_associative(mid, sections_text(vs, k as nat), sec);
        }
        k = k + 1;
    }
    assert(out@ =~= head + instructions(total as nat, sites@.len()) + sections_text(vs, total as nat));
    assert(head == document_header(project_root@, generator_version@, generated_at@)
        + could_not_parse(broken_views(broken@)));
    Some(out)
}

} // verus!
