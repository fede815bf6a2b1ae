//! Properties of the analysis as a whole, stated over the specifications
//! that the functions' contracts use.
use vstd::prelude::*;
use crate::classify::{classification, is_graphql_identifier};
use crate::decode::{
    common_indent, decoded_string, dedent, drop_blank_back, drop_blank_front,
    escaped_triple_quote, is_blank, leading_indent, min_content_indent, strip_pair_spec,
    triple_double_quote,
};
use crate::line_index::{lemma_line_starts_shape, line_of, line_starts_of, position_of, strictly_increasing};
use crate::markdown::{
    apply_by_default, dashes_escaped, decision, original_block, proposed_block, quoted_for_comment,
    reason_bullets, section_heading, section_text, site_comments,
};
use crate::model::{DiffKindView, FollowedBy, Recommendation, SiteView};
use crate::rewrite::{
    EditView, edits_of, insertion_point, proposed_rewrite, same_directive, section_ranges,
    sorted_by_start,
};
use crate::scan::{
    ConnectSelectionView, DirectiveNodeView, connect_selection_of, directive_selections,
    selection_argument,
};
use crate::sites::{
    ScannedSelection, SelectionComparison, analysis, connect_sites, reported_kinds, site_for,
};
use crate::text::{
    digit_char, hex_fixed, join_with, lemma_split_on_nonempty, replace_all, split_on,
};

verus! {

// ---------------------------------------------------------------------------
// Reported sites
// ---------------------------------------------------------------------------

pub open spec fn is_lower_hex_digit(c: char) -> bool {
    ('0' <= c && c <= '9') || ('a' <= c && c <= 'f')
}

proof fn lemma_hex_fixed_shape(n: nat, width: nat)
    ensures
        hex_fixed(n, width).len() == width,
        forall|j: int| 0 <= j < width ==> is_lower_hex_digit(#[trigger] hex_fixed(n, width)[j]),
    decreases width,
{
    if width > 0 {
        lemma_hex_fixed_shape(n / 16, (width - 1) as nat);
        let d = n % 16;
        assert(is_lower_hex_digit(digit_char(d)));
        let s = hex_fixed(n, width);
        assert forall|j: int| 0 <= j < width implies is_lower_hex_digit(#[trigger] s[j]) by {
            if j < width - 1 {
                assert(s[j] == hex_fixed(n / 16, (width - 1) as nat)[j]);
            }
        }
    }
}

proof fn lemma_reported_kind_is_token(c: SelectionComparison, i: int)
    requires
        0 <= i < reported_kinds(c).len(),
    ensures
        reported_kinds(c)[i].is_token(),
{
    if let SelectionComparison::Divergent(ds) = c {
        let kinds = ds@.map_values(|k: crate::model::DiffKind| k@);
        let pred = |k: DiffKindView| k.is_token();
        kinds.lemma_filter_pred(pred, i);
    }
}

proof fn lemma_analysis_member(scanned: Seq<ScannedSelection>, i: int)
    requires
        0 <= i < analysis(scanned).len(),
    ensures
        exists|m: int, j: int|
            0 <= m < scanned.len() && 0 <= j < reported_kinds(scanned[m].comparison).len()
                && analysis(scanned)[i] == site_for(
                scanned[m].file@,
                scanned[m].connect@,
                reported_kinds(scanned[m].comparison)[j],
            ),
    decreases scanned.len(),
{
    let prev = analysis(scanned.drop_last());
    let last = scanned.last();
    let own = connect_sites(last.file@, last.connect@, last.comparison);
    if i < prev.len() {
        lemma_analysis_member(scanned.drop_last(), i);
        let (m, j) = choose|m: int, j: int|
            0 <= m < scanned.drop_last().len() && 0 <= j < reported_kinds(
                scanned.drop_last()[m].comparison,
            ).len() && prev[i] == site_for(
                scanned.drop_last()[m].file@,
                scanned.drop_last()[m].connect@,
                reported_kinds(scanned.drop_last()[m].comparison)[j],
            );
        assert(scanned.drop_last()[m] == scanned[m]);
    } else {
        let j = i - prev.len();
        assert(analysis(scanned)[i] == own[j]);
        assert(scanned[scanned.len() - 1] == last);
    }
}

/// Every reported site is of one of the four token kinds
/// (`key_quoted_flipped_to_literal_string`, `key_flipped_to_literal_null`,
/// `key_flipped_to_literal_bool`, `key_field_flipped_to_literal_string`):
/// the object-shape kinds, which change no behavior, and divergences of no
/// known kind are never reported.
pub proof fn law_sites_have_token_kinds(scanned: Seq<ScannedSelection>, i: int)
    requires
        0 <= i < analysis(scanned).len(),
    ensures
        analysis(scanned)[i].kind == "key_quoted_flipped_to_literal_string"@
            || analysis(scanned)[i].kind == "key_flipped_to_literal_null"@
            || analysis(scanned)[i].kind == "key_flipped_to_literal_bool"@
            || analysis(scanned)[i].kind == "key_field_flipped_to_literal_string"@,
{
    lemma_analysis_member(scanned, i);
    let (m, j) = choose|m: int, j: int|
        0 <= m < scanned.len() && 0 <= j < reported_kinds(scanned[m].comparison).len()
            && analysis(scanned)[i] == site_for(
            scanned[m].file@,
            scanned[m].connect@,
            reported_kinds(scanned[m].comparison)[j],
        );
    lemma_reported_kind_is_token(scanned[m].comparison, j);
}

/// Every reported site is identified by exactly eight lowercase
/// hexadecimal digits.
pub proof fn law_site_ids_are_eight_hex_digits(scanned: Seq<ScannedSelection>, i: int)
    requires
        0 <= i < analysis(scanned).len(),
    ensures
        analysis(scanned)[i].id.len() == 8,
        forall|j: int| 0 <= j < 8 ==> is_lower_hex_digit(#[trigger] analysis(scanned)[i].id[j]),
{
    lemma_analysis_member(scanned, i);
    let id = analysis(scanned)[i].id;
    let (m, j) = choose|m: int, j: int|
        0 <= m < scanned.len() && 0 <= j < reported_kinds(scanned[m].comparison).len()
            && analysis(scanned)[i] == site_for(
            scanned[m].file@,
            scanned[m].connect@,
            reported_kinds(scanned[m].comparison)[j],
        );
    let s = site_for(
        scanned[m].file@,
        scanned[m].connect@,
        reported_kinds(scanned[m].comparison)[j],
    );
    let h = crate::sites::site_hash(s.file, s.coordinate, s.kind, s.text, s.selection);
    lemma_hex_fixed_shape((h % 0x1_0000_0000) as nat, 8);
}

/// A selection whose two parses agree, or that does not parse under both
/// specs, yields no site.
pub proof fn law_agreeing_parses_report_nothing(file: Seq<char>, c: ConnectSelectionView)
    ensures
        connect_sites(file, c, SelectionComparison::Identical).len() == 0,
        connect_sites(file, c, SelectionComparison::OneSided).len() == 0,
        connect_sites(file, c, SelectionComparison::Unparsable).len() == 0,
{
}

/// Sites come in walk order: analysing the selections of one part of a
/// project and then those of the rest gives the sites of the first part
/// followed by those of the rest.
pub proof fn law_sites_follow_walk_order(a: Seq<ScannedSelection>, b: Seq<ScannedSelection>)
    ensures
        analysis(a + b) == analysis(a) + analysis(b),
    decreases b.len(),
{
    if b.len() == 0 {
        assert(a + b =~= a);
        assert(analysis(a) + analysis(b) =~= analysis(a));
    } else {
        law_sites_follow_walk_order(a, b.drop_last());
        assert((a + b).drop_last() =~= a + b.drop_last());
        assert((a + b).last() == b.last());
        let last = b.last();
        let own = connect_sites(last.file@, last.connect@, last.comparison);
        assert(analysis(a) + analysis(b.drop_last()) + own =~= analysis(a) + (analysis(
            b.drop_last(),
        ) + own));
    }
}

/// A site's identifier does not depend on where its directive stands: two
/// sites that differ only in line and column have the same identifier.
pub proof fn law_site_id_ignores_position(
    file: Seq<char>,
    c1: ConnectSelectionView,
    c2: ConnectSelectionView,
    k: DiffKindView,
)
    requires
        c1.coordinate == c2.coordinate,
        c1.selection == c2.selection,
    ensures
        site_for(file, c1, k).id == site_for(file, c2, k).id,
{
}

/// Within one selection, the sites follow the order of its reported
/// divergences: the `j`-th site is the record of the `j`-th divergence.
pub proof fn law_sites_follow_diff_order(
    file: Seq<char>,
    c: ConnectSelectionView,
    comparison: SelectionComparison,
    j: int,
)
    requires
        0 <= j < reported_kinds(comparison).len(),
    ensures
        connect_sites(file, c, comparison).len() == reported_kinds(comparison).len(),
        connect_sites(file, c, comparison)[j] == site_for(file, c, reported_kinds(comparison)[j]),
{
}

/// Stripping a delimiter pair from both ends succeeds exactly when the text
/// starts and ends with the delimiter and is long enough for both, and then
/// the delimiter, the stripped text and the delimiter again make up the text.
pub proof fn law_strip_pair_round_trip(s: Seq<char>, delim: Seq<char>)
    ensures
        strip_pair_spec(s, delim) is Some <==> (s.len() >= 2 * delim.len() && s.take(
            delim.len() as int,
        ) == delim && s.skip(s.len() - delim.len()) == delim),
        strip_pair_spec(s, delim) matches Some(inner) ==> delim + inner + delim == s,
{
    if strip_pair_spec(s, delim) is Some {
        let inner = s.subrange(delim.len() as int, s.len() - delim.len());
        assert(delim + inner + delim =~= s) by {
            assert forall|i: int| 0 <= i < s.len() implies (delim + inner + delim)[i] == s[i] by {
                if i < delim.len() {
                    assert(s.take(delim.len() as int)[i] == s[i]);
                } else if i >= s.len() - delim.len() {
                    assert(s.skip(s.len() - delim.len())[i - (s.len() - delim.len())] == s[i]);
                }
            }
        }
    }
}

// ---------------------------------------------------------------------------
// Recommendations
// ---------------------------------------------------------------------------

/// A token followed by anything (a path access, a method, a sub-selection,
/// …) is recommended `keep-v0.3`: literals have no fields.
pub proof fn law_followed_token_is_kept(k: DiffKindView)
    requires
        k.is_token(),
        k.followed_by() != FollowedBy::Nothing,
    ensures
        classification(k).0 == Recommendation::KeepV03,
{
}

/// A bare `null`, `true` or `false` in value position is recommended
/// `embrace-v0.4`.
pub proof fn law_bare_literal_is_embraced(k: DiffKindView)
    requires
        k is KeyFlippedToLiteralNull || k is KeyFlippedToLiteralBool,
        k.followed_by() == FollowedBy::Nothing,
    ensures
        classification(k).0 == Recommendation::EmbraceV04,
{
}

/// A quoted short constant or placeholder (an uppercase constant like
/// `"USD"` or `"PASSENGER"`, a currency-like or formatting token like
/// `"0.00"`, `"-"` or `"2x"`, a single character) is recommended
/// `embrace-v0.4`.
pub proof fn law_short_constant_is_embraced(k: DiffKindView)
    requires
        k is KeyQuotedFlippedToLiteralString,
        k.followed_by() == FollowedBy::Nothing,
        crate::classify::is_constant_like(k.text()),
    ensures
        classification(k).0 == Recommendation::EmbraceV04,
{
}

/// A quoted string that is no short constant and no valid GraphQL
/// identifier is recommended `keep-v0.3`: it is a field name of a REST
/// response.
pub proof fn law_non_identifier_quote_is_kept(k: DiffKindView)
    requires
        k is KeyQuotedFlippedToLiteralString,
        !crate::classify::is_constant_like(k.text()),
        !is_graphql_identifier(k.text()),
    ensures
        classification(k).0 == Recommendation::KeepV03,
{
}

/// A quoted string in snake_case or camelCase, like
/// `"refresh_token_expires_in"` or `"Cntl_LockSeq"`, that is no short
/// constant is recommended `keep-v0.3`: it is a REST API field name.
pub proof fn law_rest_field_name_is_kept(k: DiffKindView)
    requires
        k is KeyQuotedFlippedToLiteralString,
        !crate::classify::is_constant_like(k.text()),
        crate::classify::is_rest_field_name(k.text()),
    ensures
        classification(k).0 == Recommendation::KeepV03,
{
}

/// The object-shape kinds and unknown kinds are recommended for manual review.
pub proof fn law_unclassified_kinds_are_ambiguous(k: DiffKindView)
    requires
        !k.is_token(),
    ensures
        classification(k).0 == Recommendation::Ambiguous,
{
}

// ---------------------------------------------------------------------------
// Proposed rewrites
// ---------------------------------------------------------------------------

proof fn lemma_all_embraced_no_edits(ss: Seq<SiteView>)
    requires
        forall|i: int| 0 <= i < ss.len() ==> (#[trigger] ss[i]).recommendation
            == Recommendation::EmbraceV04,
    ensures
        edits_of(ss).len() == 0,
    decreases ss.len(),
{
    if ss.len() > 0 {
        assert forall|i: int| 0 <= i < ss.drop_last().len() implies (
        #[trigger] ss.drop_last()[i]).recommendation == Recommendation::EmbraceV04 by {
            assert(ss.drop_last()[i] == ss[i]);
        }
        lemma_all_embraced_no_edits(ss.drop_last());
        assert(ss.last().recommendation == Recommendation::EmbraceV04);
    }
}

/// When every site of a section is recommended `embrace-v0.4`, the proposed
/// rewrite is the original selection (and the checklist then defaults to
/// leaving the source unchanged).
pub proof fn law_rewrite_unchanged_when_all_embraced(selection: Seq<char>, ss: Seq<SiteView>)
    requires
        forall|i: int| 0 <= i < ss.len() ==> (#[trigger] ss[i]).recommendation
            == Recommendation::EmbraceV04,
    ensures
        proposed_rewrite(selection, ss) == Some(selection),
{
    lemma_all_embraced_no_edits(ss);
}

pub open spec fn sorted_by_start_order(es: Seq<EditView>) -> bool {
    forall|i: int, j: int| 0 <= i < j < es.len() ==> (#[trigger] es[i]).start <= (#[trigger] es[j]).start
}

proof fn lemma_insertion_point(s: Seq<EditView>, e: EditView)
    ensures
        0 <= insertion_point(s, e) <= s.len(),
        insertion_point(s, e) > 0 ==> s[insertion_point(s, e) - 1].start <= e.start,
        forall|j: int| insertion_point(s, e) <= j < s.len() ==> (#[trigger] s[j]).start > e.start,
    decreases s.len(),
{
    if s.len() > 0 && s.last().start > e.start {
        lemma_insertion_point(s.drop_last(), e);
        let k = insertion_point(s.drop_last(), e);
        assert forall|j: int| k <= j < s.len() implies (#[trigger] s[j]).start > e.start by {
            if j < s.len() - 1 {
                assert(s[j] == s.drop_last()[j]);
            }
        }
        if k > 0 {
            assert(s[k - 1] == s.drop_last()[k - 1]);
        }
    }
}

/// The edits of a section are applied in order of their start: sorting
/// leaves them ordered by start, a later edit never before an earlier one.
pub proof fn law_edits_sorted_by_start(es: Seq<EditView>)
    ensures
        sorted_by_start_order(sorted_by_start(es)),
        sorted_by_start(es).len() == es.len(),
    decreases es.len(),
{
    if es.len() > 0 {
        law_edits_sorted_by_start(es.drop_last());
        let s = sorted_by_start(es.drop_last());
        let e = es.last();
        lemma_insertion_point(s, e);
        let k = insertion_point(s, e);
        let r = s.insert(k, e);
        assert forall|i: int, j: int| 0 <= i < j < r.len() implies (#[trigger] r[i]).start <= (
        #[trigger] r[j]).start by {
            if j < k {
                assert(r[i] == s[i] && r[j] == s[j]);
            } else if j == k {
                assert(r[j] == e && r[i] == s[i]);
                assert(s[i].start <= s[k - 1].start);
            } else if i == k {
                assert(r[i] == e && r[j] == s[j - 1]);
            } else if i < k {
                assert(r[i] == s[i] && r[j] == s[j - 1]);
            } else {
                assert(r[i] == s[i - 1] && r[j] == s[j - 1]);
            }
        }
    }
}

// ---------------------------------------------------------------------------
// Comment fields
// ---------------------------------------------------------------------------

proof fn lemma_replace_char_removes(s: Seq<char>, c: char, rep: Seq<char>)
    requires
        forall|j: int| 0 <= j < rep.len() ==> rep[j] != c,
    ensures
        forall|j: int|
            0 <= j < replace_all(s, seq![c], rep).len() ==> #[trigger] replace_all(
                s,
                seq![c],
                rep,
            )[j] != c,
    decreases s.len(),
{
    let r = replace_all(s, seq![c], rep);
    if s.len() >= 1 {
        let t = s.skip(1);
        lemma_replace_char_removes(t, c, rep);
        let rt = replace_all(t, seq![c], rep);
        assert(s.take(1) =~= seq![s[0]]);
        let head = if s[0] == c {
            rep
        } else {
            seq![s[0]]
        };
        if s[0] == c {
            assert(s.take(1) =~= seq![c]);
        } else {
            assert(s.take(1)[0] != seq![c][0]);
        }
        assert(r == head + rt);
        assert forall|j: int| 0 <= j < r.len() implies #[trigger] r[j] != c by {
            if j < head.len() {
                assert(r[j] == head[j]);
            } else {
                assert(r[j] == rt[j - head.len()]);
            }
        }
    }
}

/// `s` holds no two dashes in a row.
pub open spec fn no_dash_pair(s: Seq<char>) -> bool {
    forall|i: int| 0 <= i && i + 1 < s.len() ==> !(#[trigger] s[i] == '-' && s[i + 1] == '-')
}

proof fn lemma_dashes_escaped(t: Seq<char>)
    ensures
        no_dash_pair(dashes_escaped(t)),
        t.len() == 0 ==> dashes_escaped(t).len() == 0,
        t.len() > 0 ==> dashes_escaped(t).len() > 0 && (dashes_escaped(t).last() == '-'
            <==> t.last() == '-'),
        (forall|j: int| 0 <= j < t.len() ==> #[trigger] t[j] != '\n') ==> (forall|j: int|
            0 <= j < dashes_escaped(t).len() ==> #[trigger] dashes_escaped(t)[j] != '\n'),
    decreases t.len(),
{
    if t.len() > 0 {
        let d = t.drop_last();
        lemma_dashes_escaped(d);
        let p = dashes_escaped(d);
        let r = dashes_escaped(t);
        if (forall|j: int| 0 <= j < t.len() ==> #[trigger] t[j] != '\n') {
            assert forall|j: int| 0 <= j < d.len() implies #[trigger] d[j] != '\n' by {
                assert(d[j] == t[j]);
            }
        }
        if t.last() == '-' && t.len() >= 2 && t[t.len() - 2] == '-' {
            assert(d.last() == t[t.len() - 2]);
            assert(r == p + seq!['\\', '-']);
            assert forall|i: int| 0 <= i && i + 1 < r.len() implies !(#[trigger] r[i] == '-' && r[i
                + 1] == '-') by {
                if i + 1 < p.len() {
                    assert(r[i] == p[i] && r[i + 1] == p[i + 1]);
                } else if i + 1 == p.len() {
                    assert(r[i + 1] == '\\');
                } else {
                    assert(r[i] == '\\');
                }
            }
        } else {
            assert(r == p.push(t.last()));
            if t.len() >= 2 {
                assert(d.last() == t[t.len() - 2]);
            }
            assert forall|i: int| 0 <= i && i + 1 < r.len() implies !(#[trigger] r[i] == '-' && r[i
                + 1] == '-') by {
                if i + 1 < p.len() {
                    assert(r[i] == p[i] && r[i + 1] == p[i + 1]);
                } else {
                    assert(r[i] == p.last());
                }
            }
        }
    }
}

/// A comment field holds no newline.
pub proof fn law_comment_field_has_no_newline(s: Seq<char>)
    ensures
        forall|j: int| 0 <= j < quoted_for_comment(s).len() ==> #[trigger] quoted_for_comment(s)[j]
            != '\n',
{
    reveal_strlit("\n");
    reveal_strlit("\\n");
    reveal_strlit("\"");
    assert("\n"@ =~= seq!['\n']);
    lemma_replace_char_removes(s, '\n', "\\n"@);
    let a = replace_all(s, "\n"@, "\\n"@);
    lemma_dashes_escaped(a);
    let b = dashes_escaped(a);
    let q = quoted_for_comment(s);
    assert(q == "\""@ + b + "\""@);
    assert forall|j: int| 0 <= j < q.len() implies #[trigger] q[j] != '\n' by {
        if 1 <= j < q.len() - 1 {
            assert(q[j] == b[j - 1]);
        }
    }
}

/// A comment field holds no `--`, which would end the HTML comment.
pub proof fn law_comment_field_has_no_double_dash(s: Seq<char>)
    ensures
        no_dash_pair(quoted_for_comment(s)),
{
    reveal_strlit("\"");
    let a = replace_all(s, "\n"@, "\\n"@);
    lemma_dashes_escaped(a);
    let b = dashes_escaped(a);
    let q = quoted_for_comment(s);
    assert(q == "\""@ + b + "\""@);
    assert forall|i: int| 0 <= i && i + 1 < q.len() implies !(#[trigger] q[i] == '-' && q[i + 1]
        == '-') by {
        if i == 0 {
            assert(q[0] == '"');
        } else if i + 1 == q.len() - 1 {
            assert(q[i + 1] == '"');
        } else {
            assert(q[i] == b[i - 1] && q[i + 1] == b[i]);
        }
    }
}

// ---------------------------------------------------------------------------
// Positions
// ---------------------------------------------------------------------------

/// Positions are 1-based: every offset lies on a line `>= 1`, at a column
/// `>= 1`, and the line it is reported on starts at or before it.
pub proof fn law_positions_are_one_based(b: Seq<u8>, offset: int)
    requires
        0 <= offset,
    ensures
        position_of(line_starts_of(b), offset).0 >= 1,
        position_of(line_starts_of(b), offset).1 >= 1,
{
    let starts = line_starts_of(b);
    lemma_line_starts_shape(b);
    lemma_line_of_in_range(starts, offset);
}

proof fn lemma_line_of_in_range(starts: Seq<int>, offset: int)
    requires
        starts.len() >= 1,
        starts[0] <= offset,
    ensures
        0 <= line_of(starts, offset) < starts.len(),
        starts[line_of(starts, offset)] <= offset,
    decreases starts.len(),
{
    if starts.last() > offset {
        assert(starts.len() > 1);
        assert(starts.drop_last()[0] == starts[0]);
        lemma_line_of_in_range(starts.drop_last(), offset);
    }
}

/// The number of newline bytes in `b`.
pub open spec fn newline_count(b: Seq<u8>) -> nat
    decreases b.len(),
{
    if b.len() == 0 {
        0
    } else {
        newline_count(b.drop_last()) + if b.last() == 10 {
            1nat
        } else {
            0nat
        }
    }
}

proof fn lemma_line_starts_count(b: Seq<u8>)
    ensures
        line_starts_of(b).len() == newline_count(b) + 1,
    decreases b.len(),
{
    if b.len() > 0 {
        lemma_line_starts_count(b.drop_last());
    }
}

/// The line starts of a text are those of a prefix, followed by starts that
/// lie after the prefix.
proof fn lemma_line_starts_prefix(b: Seq<u8>, n: int)
    requires
        0 <= n <= b.len(),
    ensures
        line_starts_of(b).subrange(0, line_starts_of(b.take(n)).len() as int) == line_starts_of(
            b.take(n),
        ),
        line_starts_of(b.take(n)).len() <= line_starts_of(b).len(),
        forall|i: int|
            line_starts_of(b.take(n)).len() <= i < line_starts_of(b).len() ==> #[trigger] line_starts_of(
                b,
            )[i] > n,
    decreases b.len() - n,
{
    if n == b.len() {
        assert(b.take(n) =~= b);
        assert(line_starts_of(b).subrange(0, line_starts_of(b).len() as int) =~= line_starts_of(b));
    } else {
        let d = b.drop_last();
        lemma_line_starts_prefix(d, n);
        assert(d.take(n) =~= b.take(n));
        lemma_line_starts_shape(d);
        let p = line_starts_of(b.take(n));
        let sd = line_starts_of(d);
        if b.last() == 10 {
            assert(line_starts_of(b) == sd.push(b.len() as int));
            assert(line_starts_of(b).subrange(0, p.len() as int) =~= sd.subrange(0, p.len() as int));
        } else {
            assert(line_starts_of(b) == sd);
        }
    }
}

/// The last line start of a text follows a newline (or is 0), and no
/// newline comes after it.
proof fn lemma_last_line_start(x: Seq<u8>)
    ensures
        ({
            let s = line_starts_of(x).last();
            &&& 0 <= s <= x.len()
            &&& (s == 0 || x[s - 1] == 10)
            &&& forall|j: int| s <= j < x.len() ==> #[trigger] x[j] != 10
        }),
    decreases x.len(),
{
    lemma_line_starts_shape(x);
    if x.len() > 0 {
        lemma_last_line_start(x.drop_last());
        if x.last() != 10 {
            let s = line_starts_of(x).last();
            assert(s == line_starts_of(x.drop_last()).last());
            assert forall|j: int| s <= j < x.len() implies #[trigger] x[j] != 10 by {
                if j < x.len() - 1 {
                    assert(x[j] == x.drop_last()[j]);
                }
            }
            if s > 0 {
                assert(x[s - 1] == x.drop_last()[s - 1]);
            }
        }
    }
}

proof fn lemma_line_of_with_later_starts(p: Seq<int>, rest: Seq<int>, offset: int)
    requires
        p.len() >= 1,
        p.last() <= offset,
        forall|i: int| 0 <= i < rest.len() ==> #[trigger] rest[i] > offset,
    ensures
        line_of(p + rest, offset) == p.len() - 1,
    decreases rest.len(),
{
    if rest.len() == 0 {
        assert(p + rest =~= p);
    } else {
        assert((p + rest).last() == rest.last());
        assert((p + rest).drop_last() =~= p + rest.drop_last());
        lemma_line_of_with_later_starts(p, rest.drop_last(), offset);
    }
}

/// Lines and columns count from 1: the line of a byte offset into a text is
/// one more than the number of newlines before it, and its column is one
/// more than the number of bytes since the last of those newlines (or
/// since the start of the text).
pub proof fn law_position_counts_newlines(b: Seq<u8>, offset: int)
    requires
        0 <= offset <= b.len(),
    ensures
        position_of(line_starts_of(b), offset).0 == newline_count(b.take(offset)) + 1,
        ({
            let col = position_of(line_starts_of(b), offset).1;
            &&& 1 <= col <= offset + 1
            &&& forall|j: int| offset - col + 1 <= j < offset ==> #[trigger] b[j] != 10
            &&& (col == offset + 1 || b[offset - col] == 10)
        }),
{
    let x = b.take(offset);
    let p = line_starts_of(x);
    let starts = line_starts_of(b);
    lemma_line_starts_prefix(b, offset);
    lemma_line_starts_shape(x);
    lemma_line_starts_count(x);
    lemma_last_line_start(x);
    let rest = starts.subrange(p.len() as int, starts.len() as int);
    assert(starts =~= p + rest);
    assert forall|i: int| 0 <= i < rest.len() implies #[trigger] rest[i] > offset by {
        assert(rest[i] == starts[p.len() + i]);
    }
    lemma_line_of_with_later_starts(p, rest, offset);
    let s = p.last();
    assert(starts[p.len() - 1] == s);
    assert forall|j: int| s <= j < offset implies #[trigger] b[j] != 10 by {
        assert(x[j] == b[j]);
    }
    if s > 0 {
        assert(x[s - 1] == b[s - 1]);
    }
}

/// The line starts of a text are 0 and one past each newline byte, in
/// increasing order: one more entry than the text has newlines, every entry
/// after the first follows a newline, and every newline is followed by an
/// entry.
pub proof fn law_line_starts_follow_newlines(b: Seq<u8>)
    ensures
        line_starts_of(b).len() == newline_count(b) + 1,
        line_starts_of(b)[0] == 0,
        strictly_increasing(line_starts_of(b)),
        forall|k: int|
            1 <= k < line_starts_of(b).len() ==> 1 <= #[trigger] line_starts_of(b)[k] <= b.len()
                && b[line_starts_of(b)[k] - 1] == 10,
        forall|i: int| 0 <= i < b.len() && #[trigger] b[i] == 10 ==> line_starts_of(b).contains(i + 1),
    decreases b.len(),
{
    lemma_line_starts_count(b);
    lemma_line_starts_shape(b);
    if b.len() > 0 {
        let d = b.drop_last();
        law_line_starts_follow_newlines(d);
        lemma_line_starts_shape(d);
        let sd = line_starts_of(d);
        let sb = line_starts_of(b);
        assert forall|k: int| 1 <= k < sb.len() implies 1 <= #[trigger] sb[k] <= b.len() && b[sb[k]
            - 1] == 10 by {
            if k < sd.len() {
                assert(sb[k] == sd[k]);
                assert(b[sd[k] - 1] == d[sd[k] - 1]);
            }
        }
        assert forall|i: int| 0 <= i < b.len() && #[trigger] b[i] == 10 implies sb.contains(i + 1) by {
            if i < b.len() - 1 {
                assert(d[i] == b[i]);
                let k = choose|k: int| 0 <= k < sd.len() && sd[k] == i + 1;
                assert(sb[k] == sd[k]);
            } else {
                assert(sb.last() == b.len());
            }
        }
    }
}

/// `b` with `n` newline bytes inserted at offset `p`.
pub open spec fn with_newlines_at(b: Seq<u8>, p: int, n: nat) -> Seq<u8> {
    b.take(p) + Seq::new(n, |i: int| 10u8) + b.skip(p)
}

proof fn lemma_newline_count_concat(x: Seq<u8>, y: Seq<u8>)
    ensures
        newline_count(x + y) == newline_count(x) + newline_count(y),
    decreases y.len(),
{
    if y.len() == 0 {
        assert(x + y =~= x);
    } else {
        lemma_newline_count_concat(x, y.drop_last());
        assert((x + y).drop_last() =~= x + y.drop_last());
        assert((x + y).last() == y.last());
    }
}

proof fn lemma_newline_count_newlines(n: nat)
    ensures
        newline_count(Seq::new(n, |i: int| 10u8)) == n,
    decreases n,
{
    if n > 0 {
        assert(Seq::new(n, |i: int| 10u8).drop_last() =~= Seq::new((n - 1) as nat, |i: int| 10u8));
        lemma_newline_count_newlines((n - 1) as nat);
    }
}

/// Inserting `n` newlines at offset `p` of a text moves every offset at or
/// after `p` down by `n` lines. Its column stays the same when a newline
/// already stands between `p` and it (the insertion is on an earlier line).
/// So a directive keeps its column, and its line grows by `n`, when
/// newlines are inserted on a line before its own.
pub proof fn law_inserted_newlines_shift_lines(b: Seq<u8>, p: int, n: nat, o: int)
    requires
        0 <= p <= o <= b.len(),
    ensures
        position_of(line_starts_of(with_newlines_at(b, p, n)), o + n).0 == position_of(
            line_starts_of(b),
            o,
        ).0 + n,
        (exists|j: int| p <= j < o && #[trigger] b[j] == 10) ==> position_of(
            line_starts_of(with_newlines_at(b, p, n)),
            o + n,
        ).1 == position_of(line_starts_of(b), o).1,
{
    let z = Seq::new(n, |i: int| 10u8);
    let b2 = with_newlines_at(b, p, n);
    assert(b2.len() == b.len() + n);
    law_position_counts_newlines(b, o);
    law_position_counts_newlines(b2, o + n);
    let mid = b.subrange(p, o);
    assert(b2.take(o + n) =~= b.take(p) + z + mid);
    assert(b.take(o) =~= b.take(p) + mid);
    lemma_newline_count_concat(b.take(p) + z, mid);
    lemma_newline_count_concat(b.take(p), z);
    lemma_newline_count_concat(b.take(p), mid);
    lemma_newline_count_newlines(n);
    assert forall|k: int| p + n <= k < b2.len() implies b2[k] == b[k - n] by {
        assert(b2[k] == b.skip(p)[k - p - n]);
    }
    if exists|j: int| p <= j < o && #[trigger] b[j] == 10 {
        let j0 = choose|j: int| p <= j < o && #[trigger] b[j] == 10;
        let c = position_of(line_starts_of(b), o).1;
        let c2 = position_of(line_starts_of(b2), o + n).1;
        assert(c != o + 1) by {
            if c == o + 1 {
                assert(o - c + 1 <= j0 < o);
            }
        }
        assert(b[o - c] == 10);
        assert(o - c >= j0) by {
            if o - c < j0 {
                assert(o - c + 1 <= j0 < o);
            }
        }
        assert(b2[o + n - c] == 10);
        if c2 > c {
            assert(o + n - c2 + 1 <= o + n - c < o + n);
            assert(b2[o + n - c] != 10);
        } else if c2 < c {
            assert(c2 != o + n + 1);
            assert(b2[o + n - c2] == 10);
            assert(b2[o + n - c2] == b[o - c2]);
            assert(o - c + 1 <= o - c2 < o);
        }
    }
}

// ---------------------------------------------------------------------------
// Checklist defaults
// ---------------------------------------------------------------------------

/// The checklist with "apply the rewrite above" checked.
pub open spec fn apply_checked() -> Seq<char> {
    "**Decide:**\n- [x] apply the rewrite above\n- [ ] leave the source unchanged\n\n"@
}

/// The checklist with "leave the source unchanged" checked.
pub open spec fn leave_checked() -> Seq<char> {
    "**Decide:**\n- [ ] apply the rewrite above\n- [x] leave the source unchanged\n\n"@
}

proof fn lemma_decision_texts()
    ensures
        decision(true) == apply_checked(),
        decision(false) == leave_checked(),
{
    reveal_strlit("**Decide:**\n");
    reveal_strlit("- [");
    reveal_strlit("x");
    reveal_strlit(" ");
    reveal_strlit("] apply the rewrite above\n");
    reveal_strlit("] leave the source unchanged\n");
    reveal_strlit("\n");
    reveal_strlit("**Decide:**\n- [x] apply the rewrite above\n- [ ] leave the source unchanged\n\n");
    reveal_strlit("**Decide:**\n- [ ] apply the rewrite above\n- [x] leave the source unchanged\n\n");
    assert(decision(true) =~= apply_checked());
    assert(decision(false) =~= leave_checked());
}

/// A section with a site recommended `keep-v0.3` or `???` anywhere in it
/// ends with its checklist defaulting to "apply the rewrite above"; one whose
/// sites are all `embrace-v0.4` defaults to "leave the source unchanged".
/// So a section whose proposed rewrite differs from its selection defaults
/// to apply.
pub proof fn law_checklist_default(n: nat, total: nat, ss: Seq<SiteView>, rewrite: Seq<char>)
    ensures
        (exists|i: int|
            0 <= i < ss.len() && (#[trigger] ss[i].recommendation == Recommendation::KeepV03
                || ss[i].recommendation == Recommendation::Ambiguous)) ==> exists|p: Seq<char>|
            section_text(n, total, ss, rewrite) == p + apply_checked(),
        (forall|i: int|
            0 <= i < ss.len() ==> #[trigger] ss[i].recommendation == Recommendation::EmbraceV04)
            ==> exists|p: Seq<char>| section_text(n, total, ss, rewrite) == p + leave_checked(),
        ss.len() > 0 && proposed_rewrite(ss[0].selection, ss) != Some(ss[0].selection)
            ==> exists|p: Seq<char>| section_text(n, total, ss, rewrite) == p + apply_checked(),
{
    lemma_decision_texts();
    let p = section_heading(n, total, ss[0]) + site_comments(ss) + original_block(ss[0].selection)
        + reason_bullets(ss) + proposed_block(rewrite);
    if exists|i: int|
        0 <= i < ss.len() && (#[trigger] ss[i].recommendation == Recommendation::KeepV03
            || ss[i].recommendation == Recommendation::Ambiguous) {
        let i = choose|i: int|
            0 <= i < ss.len() && (#[trigger] ss[i].recommendation == Recommendation::KeepV03
                || ss[i].recommendation == Recommendation::Ambiguous);
        assert(ss[i].recommendation != Recommendation::EmbraceV04);
        assert(apply_by_default(ss));
        assert(section_text(n, total, ss, rewrite) == p + apply_checked());
    }
    if forall|i: int|
        0 <= i < ss.len() ==> #[trigger] ss[i].recommendation == Recommendation::EmbraceV04 {
        assert(!apply_by_default(ss));
        assert(section_text(n, total, ss, rewrite) == p + leave_checked());
    }
    if ss.len() > 0 && proposed_rewrite(ss[0].selection, ss) != Some(ss[0].selection) {
        if forall|i: int|
            0 <= i < ss.len() ==> #[trigger] ss[i].recommendation == Recommendation::EmbraceV04 {
            lemma_all_embraced_no_edits(ss);
        }
        assert(!forall|i: int|
            0 <= i < ss.len() ==> #[trigger] ss[i].recommendation == Recommendation::EmbraceV04);
        let i = choose|i: int|
            0 <= i < ss.len() && !(#[trigger] ss[i].recommendation == Recommendation::EmbraceV04);
        assert(apply_by_default(ss));
        assert(section_text(n, total, ss, rewrite) == p + apply_checked());
    }
}

// ---------------------------------------------------------------------------
// Identifiers, over the characters of the text
// ---------------------------------------------------------------------------

/// A character that may stand in a bare GraphQL name: an ASCII letter or
/// digit, or `_`.
pub open spec fn is_name_char(c: char) -> bool {
    ('a' <= c && c <= 'z') || ('A' <= c && c <= 'Z') || ('0' <= c && c <= '9') || c == '_'
}

/// A quoted token followed by nothing that is no short constant and is no
/// bare name (it is empty, starts with a digit, or holds a character other
/// than an ASCII letter, digit or `_`, such as a space) is recommended
/// `keep-v0.3`.
pub proof fn law_quoted_non_name_is_kept(k: DiffKindView)
    requires
        k is KeyQuotedFlippedToLiteralString,
        k.followed_by() == FollowedBy::Nothing,
        !crate::classify::is_constant_like(k.text()),
        k.text().len() == 0 || ('0' <= k.text()[0] && k.text()[0] <= '9') || exists|j: int|
            0 <= j < k.text().len() && !is_name_char(#[trigger] k.text()[j]),
    ensures
        classification(k).0 == Recommendation::KeepV03,
{
    let t = k.text();
    if exists|j: int| 0 <= j < t.len() && !is_name_char(#[trigger] t[j]) {
        let j = choose|j: int| 0 <= j < t.len() && !is_name_char(#[trigger] t[j]);
        if j > 0 {
            assert(!(crate::text::is_ascii_alnum(t[j]) || t[j] == '_'));
        }
    }
    assert(!is_graphql_identifier(t));
}

/// A quoted token followed by nothing that is a bare name (a letter or `_`,
/// then ASCII letters, digits and `_`), no short constant and not in
/// snake_case or camelCase is left for review (`???`).
pub proof fn law_quoted_plain_name_is_ambiguous(k: DiffKindView)
    requires
        k is KeyQuotedFlippedToLiteralString,
        k.followed_by() == FollowedBy::Nothing,
        !crate::classify::is_constant_like(k.text()),
        !crate::classify::is_rest_field_name(k.text()),
        k.text().len() > 0,
        !('0' <= k.text()[0] && k.text()[0] <= '9'),
        forall|j: int| 0 <= j < k.text().len() ==> is_name_char(#[trigger] k.text()[j]),
    ensures
        classification(k).0 == Recommendation::Ambiguous,
{
    let t = k.text();
    assert(is_name_char(t[0]));
    assert(is_graphql_identifier(t));
}

// ---------------------------------------------------------------------------
// Sections and directives
// ---------------------------------------------------------------------------

/// Every site of a section has the file, the coordinate and the selection
/// of the section's first site: a section never spans two directives.
pub proof fn law_section_sites_share_directive(sites: Seq<SiteView>, k: int, i: int)
    requires
        0 <= k < section_ranges(sites).len(),
        section_ranges(sites)[k].0 <= i < section_ranges(sites)[k].1,
    ensures
        0 <= section_ranges(sites)[k].0 <= i < sites.len(),
        sites[i].file == sites[section_ranges(sites)[k].0].file,
        sites[i].coordinate == sites[section_ranges(sites)[k].0].coordinate,
        sites[i].selection == sites[section_ranges(sites)[k].0].selection,
{
    crate::rewrite::lemma_section_ranges_partition(sites);
    let r = section_ranges(sites);
    assert(0 <= r[k].0 < r[k].1 <= sites.len());
    assert(same_directive(sites[r[k].0], sites[i]));
}

/// Sections are as long as they can be: the first site of a section differs
/// from the last site of the section before it in its file, its coordinate
/// or its selection.
pub proof fn law_sections_split_between_directives(sites: Seq<SiteView>, k: int)
    requires
        0 <= k,
        k + 1 < section_ranges(sites).len(),
    ensures
        ({
            let r = section_ranges(sites);
            let prev = sites[r[k + 1].0 - 1];
            let next = sites[r[k + 1].0];
            &&& 0 < r[k + 1].0 < sites.len()
            &&& prev.file != next.file || prev.coordinate != next.coordinate || prev.selection
                != next.selection
        }),
{
    crate::rewrite::lemma_section_ranges_partition(sites);
    let r = section_ranges(sites);
    assert(r[k].1 == r[k + 1].0);
    assert(0 <= r[k].0 < r[k].1 <= sites.len());
    assert(0 <= r[k + 1].0 < r[k + 1].1 <= sites.len());
    assert(same_directive(sites[r[k].0], sites[r[k + 1].0 - 1]));
    assert(!same_directive(sites[r[k].0], sites[r[k + 1].0]));
}

/// A `@connect` directive of a directive list yields a selection exactly
/// when it is named `connect` and has a string `selection:` argument: the
/// selections of a list are one per such directive, in order.
pub proof fn law_one_selection_per_connect_directive(
    ds: Seq<DirectiveNodeView>,
    coordinate: Seq<char>,
    starts: Seq<int>,
)
    ensures
        directive_selections(ds, coordinate, starts) == ds.filter(
            |d: DirectiveNodeView|
                d.name == Some("connect"@) && (d.arguments matches Some(a) && selection_argument(
                    a,
                ) is Some),
        ).map_values(|d: DirectiveNodeView| connect_selection_of(d, coordinate, starts)->0),
    decreases ds.len(),
{
    let pred = |d: DirectiveNodeView|
        d.name == Some("connect"@) && (d.arguments matches Some(a) && selection_argument(a) is Some);
    let f = |d: DirectiveNodeView| connect_selection_of(d, coordinate, starts)->0;
    reveal(Seq::filter);
    if ds.len() == 0 {
        assert(ds.filter(pred) =~= Seq::<DirectiveNodeView>::empty());
        assert(ds.filter(pred).map_values(f) =~= Seq::<ConnectSelectionView>::empty());
    } else {
        law_one_selection_per_connect_directive(ds.drop_last(), coordinate, starts);
        let d = ds.last();
        let prev = ds.drop_last().filter(pred);
        assert(pred(d) <==> connect_selection_of(d, coordinate, starts) is Some);
        if pred(d) {
            assert(ds.filter(pred) == prev.push(d));
            assert(prev.push(d).map_values(f) =~= prev.map_values(f).push(f(d)));
        } else {
            assert(ds.filter(pred) == prev);
        }
    }
}

// ---------------------------------------------------------------------------
// Block strings
// ---------------------------------------------------------------------------

proof fn lemma_split_append_plain(x: Seq<char>, y: Seq<char>)
    requires
        forall|j: int| 0 <= j < y.len() ==> #[trigger] y[j] != '\n',
    ensures
        split_on(x + y, '\n').len() == split_on(x, '\n').len(),
        split_on(x + y, '\n') == split_on(x, '\n').update(
            split_on(x, '\n').len() - 1,
            split_on(x, '\n').last() + y,
        ),
    decreases y.len(),
{
    lemma_split_on_nonempty(x, '\n');
    let sx = split_on(x, '\n');
    if y.len() == 0 {
        assert(x + y =~= x);
        assert(sx.update(sx.len() - 1, sx.last() + y) =~= sx);
    } else {
        let yd = y.drop_last();
        assert forall|j: int| 0 <= j < yd.len() implies #[trigger] yd[j] != '\n' by {
            assert(yd[j] == y[j]);
        }
        lemma_split_append_plain(x, yd);
        assert((x + y).drop_last() =~= x + yd);
        assert((x + y).last() == y.last());
        let p = split_on(x + yd, '\n');
        assert(split_on(x + y, '\n') == p.update(p.len() - 1, p.last().push(y.last())));
        assert(p.last() == sx.last() + yd);
        assert((sx.last() + yd).push(y.last()) =~= sx.last() + y);
        assert(p.update(p.len() - 1, p.last().push(y.last())) =~= sx.update(
            sx.len() - 1,
            sx.last() + y,
        ));
    }
}

proof fn lemma_split_append_newline(x: Seq<char>)
    ensures
        split_on(x.push('\n'), '\n') == split_on(x, '\n').push(Seq::empty()),
{
    assert(x.push('\n').drop_last() =~= x);
}

proof fn lemma_leading_indent_of_run(w: Seq<char>, l: Seq<char>)
    requires
        forall|j: int| 0 <= j < w.len() ==> (#[trigger] w[j] == ' ' || w[j] == '\t'),
        l.len() > 0,
        l[0] != ' ',
        l[0] != '\t',
    ensures
        leading_indent(w + l) == w.len(),
    decreases w.len(),
{
    if w.len() == 0 {
        assert(w + l =~= l);
    } else {
        let wd = w.drop_first();
        assert forall|j: int| 0 <= j < wd.len() implies (#[trigger] wd[j] == ' ' || wd[j]
            == '\t') by {
            assert(wd[j] == w[j + 1]);
        }
        assert((w + l).drop_first() =~= wd + l);
        assert((w + l)[0] == w[0]);
        lemma_leading_indent_of_run(wd, l);
    }
}

proof fn lemma_replace_absent(s: Seq<char>, pat: Seq<char>, rep: Seq<char>)
    requires
        pat.len() > 0,
        forall|j: int| 0 <= j < s.len() ==> #[trigger] s[j] != pat[0],
    ensures
        replace_all(s, pat, rep) == s,
    decreases s.len(),
{
    if s.len() >= pat.len() {
        assert(s.take(pat.len() as int)[0] == s[0]);
        let t = s.skip(1);
        assert forall|j: int| 0 <= j < t.len() implies #[trigger] t[j] != pat[0] by {
            assert(t[j] == s[j + 1]);
        }
        lemma_replace_absent(t, pat, rep);
        assert(seq![s[0]] + t =~= s);
    }
}

/// A line of a block string body: no newline and no backslash, and not
/// starting with a space or tab.
pub open spec fn is_plain_line(l: Seq<char>) -> bool {
    &&& l.len() > 0
    &&& l[0] != ' ' && l[0] != '\t'
    &&& forall|j: int| 0 <= j < l.len() ==> #[trigger] l[j] != '\n' && l[j] != '\\'
}

proof fn lemma_body_lines(a: Seq<char>, b: Seq<char>)
    requires
        forall|j: int| 0 <= j < a.len() ==> #[trigger] a[j] != '\n',
        forall|j: int| 0 <= j < b.len() ==> #[trigger] b[j] != '\n',
    ensures
        split_on(seq!['\n'] + a + seq!['\n'] + b + seq!['\n'], '\n') == seq![
            Seq::<char>::empty(),
            a,
            b,
            Seq::<char>::empty(),
        ],
{
    let nl = seq!['\n'];
    let e = Seq::<char>::empty();
    lemma_split_append_newline(e);
    assert(e.push('\n') =~= nl);
    assert(split_on(e, '\n') =~= seq![e]);
    assert(split_on(nl, '\n') =~= seq![e, e]);
    lemma_split_append_plain(nl, a);
    assert(split_on(nl + a, '\n') =~= seq![e, a]);
    lemma_split_append_newline(nl + a);
    assert((nl + a).push('\n') =~= nl + a + nl);
    assert(split_on(nl + a + nl, '\n') =~= seq![e, a, e]);
    lemma_split_append_plain(nl + a + nl, b);
    assert(split_on(nl + a + nl + b, '\n') =~= seq![e, a, b]);
    lemma_split_append_newline(nl + a + nl + b);
    assert((nl + a + nl + b).push('\n') =~= nl + a + nl + b + nl);
    assert(seq![e, a, b].push(e) =~= seq![e, a, b, e]);
}

proof fn lemma_body_indent(a: Seq<char>, b: Seq<char>, n: nat)
    requires
        leading_indent(a) == n,
        leading_indent(b) == n,
        n < a.len(),
        n < b.len(),
    ensures
        common_indent(seq![Seq::<char>::empty(), a, b, Seq::<char>::empty()]) == n,
{
    let e = Seq::<char>::empty();
    let lines = seq![e, a, b, e];
    let rest = lines.drop_first();
    assert(rest =~= seq![a, b, e]);
    let one = seq![a];
    let two = seq![a, b];
    assert(one.drop_last() =~= Seq::<Seq<char>>::empty());
    assert(one.last() == a);
    assert(min_content_indent(Seq::<Seq<char>>::empty()) == None::<nat>);
    assert(min_content_indent(one) == Some(n));
    assert(two.drop_last() =~= one);
    assert(two.last() == b);
    assert(min_content_indent(two) == Some(n));
    assert(rest.drop_last() =~= two);
    assert(rest.last() == e);
    assert(leading_indent(e) == 0);
    assert(min_content_indent(rest) == Some(n));
}

proof fn lemma_body_trim(l1: Seq<char>, l2: Seq<char>)
    requires
        !is_blank(l1),
        !is_blank(l2),
    ensures
        drop_blank_back(drop_blank_front(seq![Seq::<char>::empty(), l1, l2, Seq::<char>::empty()]))
            == seq![l1, l2],
{
    let e = Seq::<char>::empty();
    let s = seq![e, l1, l2, e];
    assert(is_blank(e));
    assert(s[0] == e);
    let t = seq![l1, l2, e];
    assert(s.drop_first() =~= t);
    assert(t[0] == l1);
    assert(drop_blank_front(t) == t);
    assert(drop_blank_front(s) == t);
    assert(t.last() == e);
    let u = seq![l1, l2];
    assert(t.drop_last() =~= u);
    assert(u.last() == l2);
    assert(drop_blank_back(u) == u);
    assert(drop_blank_back(t) == u);
}

proof fn lemma_body_dedent(w: Seq<char>, l1: Seq<char>, l2: Seq<char>)
    ensures
        dedent(seq![Seq::<char>::empty(), w + l1, w + l2, Seq::<char>::empty()], w.len()) == seq![
            Seq::<char>::empty(),
            l1,
            l2,
            Seq::<char>::empty(),
        ],
{
    let e = Seq::<char>::empty();
    let lines = seq![e, w + l1, w + l2, e];
    let d = dedent(lines, w.len());
    let target = seq![e, l1, l2, e];
    assert(lines[1] == w + l1);
    assert(lines[2] == w + l2);
    assert(lines[3] == e);
    assert((w + l1).skip(w.len() as int) =~= l1);
    assert((w + l2).skip(w.len() as int) =~= l2);
    assert(e.skip(0) =~= e);
    assert(d[0] == target[0]);
    assert(d[1] == target[1]);
    assert(d[2] == target[2]);
    assert(d[3] =~= target[3]);
    assert(d =~= target);
}

proof fn lemma_join_two(l1: Seq<char>, l2: Seq<char>, sep: Seq<char>)
    ensures
        join_with(seq![l1, l2], sep) == l1 + sep + l2,
{
    let two = seq![l1, l2];
    assert(two.drop_last() =~= seq![l1]);
    assert(two.last() == l2);
    assert(seq![l1][0] == l1);
    assert(join_with(seq![l1], sep) == l1);
}

/// The indentation that two lines of a block string share is removed: for
/// any run `w` of spaces and tabs and any two non-blank lines `l1`, `l2`
/// that do not start with a space or tab, `"""` `\n` `w l1` `\n` `w l2` `\n`
/// `"""` decodes to `l1` `\n` `l2`.
pub proof fn law_block_string_common_indent_removed(w: Seq<char>, l1: Seq<char>, l2: Seq<char>)
    requires
        forall|j: int| 0 <= j < w.len() ==> (#[trigger] w[j] == ' ' || w[j] == '\t'),
        is_plain_line(l1),
        is_plain_line(l2),
        !is_blank(l1),
        !is_blank(l2),
    ensures
        decoded_string(
            triple_double_quote() + seq!['\n'] + w + l1 + seq!['\n'] + w + l2 + seq!['\n']
                + triple_double_quote(),
        ) == l1 + seq!['\n'] + l2,
{
    let q = triple_double_quote();
    let nl = seq!['\n'];
    let e = Seq::<char>::empty();
    let a = w + l1;
    let b = w + l2;
    let inner = nl + a + nl + b + nl;
    let full = q + nl + w + l1 + nl + w + l2 + nl + q;
    assert(full =~= q + inner + q);
    assert(full.take(3) =~= q);
    assert(full.skip(full.len() - 3) =~= q);
    assert(full.subrange(3, full.len() - 3) =~= inner);
    assert(strip_pair_spec(full, q) == Some(inner));
    assert forall|j: int| 0 <= j < a.len() implies #[trigger] a[j] != '\n' by {
        if j >= w.len() {
            assert(a[j] == l1[j - w.len()]);
        }
    }
    assert forall|j: int| 0 <= j < b.len() implies #[trigger] b[j] != '\n' by {
        if j >= w.len() {
            assert(b[j] == l2[j - w.len()]);
        }
    }
    lemma_body_lines(a, b);
    let lines = split_on(inner, '\n');
    assert(lines == seq![e, a, b, e]);
    lemma_leading_indent_of_run(w, l1);
    lemma_leading_indent_of_run(w, l2);
    lemma_body_indent(a, b, w.len());
    lemma_body_dedent(w, l1, l2);
    lemma_body_trim(l1, l2);
    let joined = l1 + nl + l2;
    lemma_join_two(l1, l2, nl);
    assert forall|j: int| 0 <= j < joined.len() implies #[trigger] joined[j]
        != escaped_triple_quote()[0] by {
        if j < l1.len() {
            assert(joined[j] == l1[j]);
        } else if j > l1.len() {
            assert(joined[j] == l2[j - l1.len() - 1]);
        }
    }
    lemma_replace_absent(joined, escaped_triple_quote(), triple_double_quote());
}

} // verus!
