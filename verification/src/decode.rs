//! Decoding of GraphQL string literals as they appear in SDL source: block
//! strings (`"""…"""`, also `'''…'''`) and single-line strings (`"…"`, also
//! `'…'`), with escape sequences resolved.
use vstd::prelude::*;
use crate::text::{chars_of, char_is_whitespace, char_from_u32, is_scalar_value, join_with, push_char, replace_all, split_on, unicode_whitespace};

verus! {

// ---------------------------------------------------------------------------
// Specification
// ---------------------------------------------------------------------------

/// `s` without the delimiter `delim` at both ends, when it starts and ends
/// with it and the two occurrences do not overlap.
pub open spec fn strip_pair_spec(s: Seq<char>, delim: Seq<char>) -> Option<Seq<char>> {
    if s.len() >= 2 * delim.len() && s.take(delim.len() as int) == delim && s.skip(
        s.len() - delim.len(),
    ) == delim {
        Some(s.subrange(delim.len() as int, s.len() - delim.len()))
    } else {
        None
    }
}

pub open spec fn triple_double_quote() -> Seq<char> {
    seq!['"', '"', '"']
}

pub open spec fn triple_single_quote() -> Seq<char> {
    seq!['\'', '\'', '\'']
}

/// The value of a GraphQL string literal given by its source text: block
/// strings first, then single-line strings; any other text is returned as is.
pub open spec fn decoded_string(s: Seq<char>) -> Seq<char> {
    if let Some(inner) = strip_pair_spec(s, triple_double_quote()) {
        block_string(inner)
    } else if let Some(inner) = strip_pair_spec(s, triple_single_quote()) {
        block_string(inner)
    } else if let Some(inner) = strip_pair_spec(s, seq!['"']) {
        unescaped(inner)
    } else if let Some(inner) = strip_pair_spec(s, seq!['\'']) {
        unescaped(inner)
    } else {
        s
    }
}

/// The number of spaces and tabs that `l` starts with.
pub open spec fn leading_indent(l: Seq<char>) -> nat
    decreases l.len(),
{
    if l.len() > 0 && (l[0] == ' ' || l[0] == '\t') {
        1 + leading_indent(l.drop_first())
    } else {
        0
    }
}

/// The smallest indentation among the lines that hold anything besides
/// spaces and tabs; `None` when there is no such line.
pub open spec fn min_content_indent(lines: Seq<Seq<char>>) -> Option<nat>
    decreases lines.len(),
{
    if lines.len() == 0 {
        None
    } else {
        let prev = min_content_indent(lines.drop_last());
        let ind = leading_indent(lines.last());
        if ind < lines.last().len() {
            Some(
                match prev {
                    Some(c) => if c <= ind {
                        c
                    } else {
                        ind
                    },
                    None => ind,
                },
            )
        } else {
            prev
        }
    }
}

/// The common indentation of a block string: that of every line after the first.
pub open spec fn common_indent(lines: Seq<Seq<char>>) -> nat {
    match min_content_indent(lines.drop_first()) {
        Some(c) => c,
        None => 0,
    }
}

/// Every line but the first loses `common` leading characters; a line
/// shorter than that becomes empty.
pub open spec fn dedent(lines: Seq<Seq<char>>, common: nat) -> Seq<Seq<char>> {
    Seq::new(
        lines.len(),
        |i: int|
            if i == 0 {
                lines[0]
            } else if lines[i].len() >= common {
                lines[i].skip(common as int)
            } else {
                Seq::empty()
            },
    )
}

/// A line made of Unicode whitespace only (or empty).
pub open spec fn is_blank(l: Seq<char>) -> bool {
    forall|j: int| 0 <= j < l.len() ==> unicode_whitespace(#[trigger] l[j])
}

pub open spec fn drop_blank_front(lines: Seq<Seq<char>>) -> Seq<Seq<char>>
    decreases lines.len(),
{
    if lines.len() > 0 && is_blank(lines[0]) {
        drop_blank_front(lines.drop_first())
    } else {
        lines
    }
}

pub open spec fn drop_blank_back(lines: Seq<Seq<char>>) -> Seq<Seq<char>>
    decreases lines.len(),
{
    if lines.len() > 0 && is_blank(lines.last()) {
        drop_blank_back(lines.drop_last())
    } else {
        lines
    }
}

pub open spec fn escaped_triple_quote() -> Seq<char> {
    seq!['\\', '"', '"', '"']
}

/// The value of a block string body: split into lines, common indentation
/// removed from all lines but the first, blank lines at both ends dropped,
/// lines joined with `'\n'`, and `\"""` turned into `"""`.
pub open spec fn block_string(raw: Seq<char>) -> Seq<char> {
    let lines = split_on(raw, '\n');
    let stripped = dedent(lines, common_indent(lines));
    let kept = drop_blank_back(drop_blank_front(stripped));
    replace_all(join_with(kept, seq!['\n']), escaped_triple_quote(), triple_double_quote())
}

/// The character that a one-character escape `\e` stands for.
pub open spec fn simple_escape(e: char) -> Option<char> {
    if e == '"' {
        Some('"')
    } else if e == '\'' {
        Some('\'')
    } else if e == '\\' {
        Some('\\')
    } else if e == '/' {
        Some('/')
    } else if e == 'n' {
        Some('\n')
    } else if e == 'r' {
        Some('\r')
    } else if e == 't' {
        Some('\t')
    } else if e == 'b' {
        Some('\u{8}')
    } else if e == 'f' {
        Some('\u{c}')
    } else {
        None
    }
}

/// The position of the first `c` in `s`.
pub open spec fn first_index_of(s: Seq<char>, c: char) -> Option<int>
    decreases s.len(),
{
    if s.len() == 0 {
        None
    } else if s[0] == c {
        Some(0)
    } else {
        match first_index_of(s.drop_first(), c) {
            Some(k) => Some(k + 1),
            None => None,
        }
    }
}

/// The hexadecimal text of a `\u` escape and the number of characters it
/// takes after the `u`: the text up to the first `}` after a `{` (all the
/// rest when no `}` follows), or else the next four characters (fewer at
/// the end of the input).
pub open spec fn unicode_escape_text(rest: Seq<char>) -> (Seq<char>, int) {
    if rest.len() > 0 && rest[0] == '{' {
        match first_index_of(rest.drop_first(), '}') {
            Some(k) => (rest.subrange(1, 1 + k), k + 2),
            None => (rest.drop_first(), rest.len() as int),
        }
    } else {
        let n = if rest.len() < 4 {
            rest.len() as int
        } else {
            4
        };
        (rest.take(n), n)
    }
}

pub open spec fn hex_digit_value(c: char) -> Option<nat> {
    if '0' <= c && c <= '9' {
        Some((c as nat - 48) as nat)
    } else if 'a' <= c && c <= 'f' {
        Some((c as nat - 87) as nat)
    } else if 'A' <= c && c <= 'F' {
        Some((c as nat - 55) as nat)
    } else {
        None
    }
}

/// The value of a sequence of hexadecimal digits (0 for none).
pub open spec fn hex_digits_value(s: Seq<char>) -> Option<nat>
    decreases s.len(),
{
    if s.len() == 0 {
        Some(0)
    } else {
        match (hex_digits_value(s.drop_last()), hex_digit_value(s.last())) {
            (Some(v), Some(d)) => Some(v * 16 + d),
            _ => None,
        }
    }
}

/// What `u32::from_str_radix(s, 16)` gives: an optional `+`, then at least
/// one hexadecimal digit, with a value that fits in 32 bits.
pub open spec fn parse_hex_u32(s: Seq<char>) -> Option<u32> {
    let digits = if s.len() > 1 && s[0] == '+' {
        s.drop_first()
    } else {
        s
    };
    if digits.len() == 0 {
        None
    } else {
        match hex_digits_value(digits) {
            Some(v) => if v <= u32::MAX {
                Some(v as u32)
            } else {
                None
            },
            None => None,
        }
    }
}

/// The character a `\u` escape with hexadecimal text `hex` stands for;
/// nothing when the text is no number or the number no scalar value.
pub open spec fn unicode_escape_char(hex: Seq<char>) -> Seq<char> {
    match parse_hex_u32(hex) {
        Some(n) => if is_scalar_value(n) {
            seq![n as char]
        } else {
            Seq::empty()
        },
        None => Seq::empty(),
    }
}

/// The value of a single-line string body with its escapes resolved. An
/// unknown escape `\e` is kept as both characters, a lone trailing `\` as is.
pub open spec fn unescaped(s: Seq<char>) -> Seq<char>
    decreases s.len(),
{
    if s.len() == 0 {
        Seq::empty()
    } else if s[0] != '\\' {
        seq![s[0]] + unescaped(s.drop_first())
    } else if s.len() == 1 {
        seq!['\\']
    } else {
        let e = s[1];
        let rest = s.skip(2);
        if let Some(c) = simple_escape(e) {
            seq![c] + unescaped(rest)
        } else if e == 'u' {
            let (hex, used) = unicode_escape_text(rest);
            if 0 <= used <= rest.len() {
                unicode_escape_char(hex) + unescaped(rest.skip(used))
            } else {
                Seq::empty()
            }
        } else {
            seq!['\\', e] + unescaped(rest)
        }
    }
}

// ---------------------------------------------------------------------------
// Lemmas
// ---------------------------------------------------------------------------

proof fn lemma_first_index_of(s: Seq<char>, c: char)
    ensures
        first_index_of(s, c) matches Some(k) ==> 0 <= k < s.len() && s[k] == c && forall|j: int|
            0 <= j < k ==> s[j] != c,
        first_index_of(s, c) is None ==> forall|j: int| 0 <= j < s.len() ==> s[j] != c,
    decreases s.len(),
{
    if s.len() > 0 {
        lemma_first_index_of(s.drop_first(), c);
        if s[0] != c {
            assert forall|j: int| 1 <= j < s.len() implies s[j] == s.drop_first()[j - 1] by {}
        }
    }
}

proof fn lemma_hex_prefix_bound(s: Seq<char>, k: int)
    requires
        0 <= k <= s.len(),
        hex_digits_value(s) is Some,
    ensures
        hex_digits_value(s.take(k)) is Some,
        hex_digits_value(s.take(k))->0 <= hex_digits_value(s)->0,
    decreases s.len(),
{
    if k < s.len() {
        assert(s.drop_last().take(k) =~= s.take(k));
        lemma_hex_prefix_bound(s.drop_last(), k);
    } else {
        assert(s.take(k) =~= s);
    }
}

// ---------------------------------------------------------------------------
// Implementation
// ---------------------------------------------------------------------------

fn hex_value(c: char) -> (r: Option<u64>)
    ensures
        r matches Some(d) ==> hex_digit_value(c) == Some(d as nat) && d < 16,
        r is None ==> hex_digit_value(c) is None,
{
    if '0' <= c && c <= '9' {
        Some((c as u32 - 48) as u64)
    } else if 'a' <= c && c <= 'f' {
        Some((c as u32 - 87) as u64)
    } else if 'A' <= c && c <= 'F' {
        Some((c as u32 - 55) as u64)
    } else {
        None
    }
}

/// `u32::from_str_radix` in base 16 over `v[lo..hi]`.
fn parse_hex(v: &Vec<char>, lo: usize, hi: usize) -> (r: Option<u32>)
    requires
        lo <= hi <= v@.len(),
    ensures
        r == parse_hex_u32(v@.subrange(lo as int, hi as int)),
{
    let ghost s = v@.subrange(lo as int, hi as int);
    let mut start = lo;
    if hi - lo > 1 && v[lo] == '+' {
        start = lo + 1;
    }
    let ghost digits = v@.subrange(start as int, hi as int);
    assert(digits =~= (if s.len() > 1 && s[0] == '+' {
        s.drop_first()
    } else {
        s
    }));
    if start == hi {
        return None;
    }
    let mut acc: u64 = 0;
    let mut i = start;
    assert(digits.take(0) =~= Seq::<char>::empty());
    while i < hi
        invariant
            start < hi,
            start <= i <= hi <= v@.len(),
            s == v@.subrange(lo as int, hi as int),
            digits == v@.subrange(start as int, hi as int),
            digits == (if s.len() > 1 && s[0] == '+' {
                s.drop_first()
            } else {
                s
            }),
            hex_digits_value(digits.take(i - start)) == Some(acc as nat),
            acc <= u32::MAX,
        decreases hi - i,
    {
        let ghost k = i - start + 1;
        assert(digits.take(k).drop_last() =~= digits.take(k - 1));
        assert(digits.take(k).last() == v@[i as int]);
        let d = match hex_value(v[i]) {
            Some(d) => d,
            None => {
                proof {
                    assert(hex_digits_value(digits.take(k)) is None);
                    if hex_digits_value(digits) is Some {
                        lemma_hex_prefix_bound(digits, k);
                    }
                }
                return None;
            },
        };
        acc = acc * 16 + d;
        assert(hex_digits_value(digits.take(k)) == Some(acc as nat));
        if acc > 0xFFFF_FFFF {
            proof {
                if hex_digits_value(digits) is Some {
                    lemma_hex_prefix_bound(digits, k);
                }
            }
            return None;
        }
        i = i + 1;
    }
    assert(digits.take(hi - start) =~= digits);
    Some(acc as u32)
}

/// The position of the first `c` in `v[from..]`, as an index into `v`.
fn find_char(v: &Vec<char>, from: usize, c: char) -> (r: Option<usize>)
    requires
        from <= v@.len(),
    ensures
        r matches Some(k) ==> first_index_of(v@.skip(from as int), c) == Some(k - from) && from
            <= k < v@.len(),
        r is None ==> first_index_of(v@.skip(from as int), c) is None,
{
    let ghost t = v@.skip(from as int);
    let mut i = from;
    while i < v.len()
        invariant
            from <= i <= v@.len(),
            t == v@.skip(from as int),
            forall|j: int| from <= j < i ==> v@[j] != c,
        decreases v.len() - i,
    {
        if v[i] == c {
            proof {
                lemma_first_index_of(t, c);
                assert(t[i - from] == c);
                if let Some(k) = first_index_of(t, c) {
                    assert(t[k] == v@[from + k]);
                    if k < i - from {
                        assert(v@[from + k] != c);
                    }
                    assert(k == i - from);
                }
            }
            return Some(i);
        }
        i = i + 1;
    }
    proof {
        lemma_first_index_of(t, c);
        if let Some(k) = first_index_of(t, c) {
            assert(t[k] == v@[from + k]);
        }
    }
    None
}

/// The extent of the hexadecimal text of a `\u` escape whose `u` stands
/// just before `v[after]`: where the text starts and ends, and where the
/// input goes on.
fn unicode_escape_extent(v: &Vec<char>, after: usize, hi: usize) -> (r: (usize, usize, usize))
    requires
        after <= hi <= v@.len(),
    ensures
        after <= r.0 <= r.1 <= r.2 <= hi,
        ({
            let (hex, used) = unicode_escape_text(v@.subrange(after as int, hi as int));
            hex == v@.subrange(r.0 as int, r.1 as int) && used == r.2 - after
        }),
{
    let ghost rest = v@.subrange(after as int, hi as int);
    if after < hi && v[after] == '{' {
        assert(rest[0] == '{');
        let ghost body = rest.drop_first();
        assert(body =~= v@.subrange(after + 1, hi as int));
        let ghost t = v@.skip(after + 1);
        assert(t =~= body + v@.skip(hi as int));
        proof {
            lemma_first_index_of(body, '}');
            lemma_first_index_of(t, '}');
        }
        let close = find_char(v, after + 1, '}');
        match close {
            Some(k) => {
                if k < hi {
                    proof {
                        assert(t[k - after - 1] == v@[k as int]);
                        assert(body[k - after - 1] == v@[k as int]);
                        if let Some(k2) = first_index_of(body, '}') {
                            assert(body[k2] == t[k2]);
                            assert(k2 == k - after - 1);
                        }
                        assert(body.subrange(0, k - after - 1) =~= v@.subrange(
                            after + 1,
                            k as int,
                        ));
                    }
                    return (after + 1, k, k + 1);
                } else {
                    proof {
                        if let Some(k2) = first_index_of(body, '}') {
                            assert(body[k2] == t[k2]);
                        }
                    }
                    return (after + 1, hi, hi);
                }
            },
            None => {
                proof {
                    if let Some(k2) = first_index_of(body, '}') {
                        assert(body[k2] == t[k2]);
                    }
                }
                return (after + 1, hi, hi);
            },
        }
    } else {
        let n = if hi - after < 4 {
            hi - after
        } else {
            4
        };
        assert(rest.take(n as int) =~= v@.subrange(after as int, after + n));
        (after, after + n, after + n)
    }
}

/// Appends what a `\u` escape with hexadecimal text `v[lo..hi]` stands for.
fn push_unicode_escape(out: &mut String, v: &Vec<char>, lo: usize, hi: usize)
    requires
        lo <= hi <= v@.len(),
    ensures
        final(out)@ == old(out)@ + unicode_escape_char(v@.subrange(lo as int, hi as int)),
{
    match parse_hex(v, lo, hi) {
        Some(n) => {
            match char_from_u32(n) {
                Some(ch) => {
                    push_char(out, ch);
                    proof {
                        vstd::utf8::char_u32_cast(ch, n);
                    }
                },
                None => {},
            }
        },
        None => {},
    }
}

fn simple_escape_exec(e: char) -> (r: Option<char>)
    ensures
        r == simple_escape(e),
{
    if e == '"' {
        Some('"')
    } else if e == '\'' {
        Some('\'')
    } else if e == '\\' {
        Some('\\')
    } else if e == '/' {
        Some('/')
    } else if e == 'n' {
        Some('\n')
    } else if e == 'r' {
        Some('\r')
    } else if e == 't' {
        Some('\t')
    } else if e == 'b' {
        Some('\u{8}')
    } else if e == 'f' {
        Some('\u{c}')
    } else {
        None
    }
}

/// Resolves the escapes of a single-line string body `v[lo..hi]`.
pub fn single_line_value(v: &Vec<char>, lo: usize, hi: usize) -> (r: String)
    requires
        lo <= hi <= v@.len(),
    ensures
        r@ == unescaped(v@.subrange(lo as int, hi as int)),
{
    let ghost raw = v@.subrange(lo as int, hi as int);
    let mut out = String::new();
    let mut i = lo;
    assert(raw.skip(0) =~= raw);
    while i < hi
        invariant
            lo <= i <= hi <= v@.len(),
            raw == v@.subrange(lo as int, hi as int),
            out@ + unescaped(raw.skip(i - lo)) == unescaped(raw),
        decreases hi - i,
    {
        let ghost s = raw.skip(i - lo);
        let ghost prev = out@;
        let c = v[i];
        assert(s[0] == c);
        if c != '\\' {
            push_char(&mut out, c);
            assert(s.drop_first() =~= raw.skip(i + 1 - lo));
            assert(unescaped(s) == seq![c] + unescaped(raw.skip(i + 1 - lo)));
            assert(out@ + unescaped(raw.skip(i + 1 - lo)) =~= prev + unescaped(s));
            i = i + 1;
        } else if i + 1 == hi {
            push_char(&mut out, '\\');
            assert(s.len() == 1);
            assert(raw.skip(hi - lo) =~= Seq::<char>::empty());
            assert(out@ + unescaped(raw.skip(hi - lo)) =~= prev + unescaped(s));
            i = hi;
        } else {
            let e = v[i + 1];
            assert(s[1] == e);
            let ghost rest = s.skip(2);
            assert(rest =~= raw.skip(i + 2 - lo));
            assert(rest =~= v@.subrange(i + 2, hi as int));
            match simple_escape_exec(e) {
                Some(m) => {
                    push_char(&mut out, m);
                    assert(out@ + unescaped(raw.skip(i + 2 - lo)) =~= prev + unescaped(s));
                    i = i + 2;
                },
                None => {
                    if e == 'u' {
                        let (hex_lo, hex_hi, next) = unicode_escape_extent(v, i + 2, hi);
                        push_unicode_escape(&mut out, v, hex_lo, hex_hi);
                        let ghost (hex, used) = unicode_escape_text(rest);
                        assert(rest.skip(used) =~= raw.skip(next - lo));
                        assert(out@ + unescaped(raw.skip(next - lo)) =~= prev + unescaped(s));
                        i = next;
                    } else {
                        push_char(&mut out, '\\');
                        push_char(&mut out, e);
                        assert(out@ + unescaped(raw.skip(i + 2 - lo)) =~= prev + unescaped(s));
                        i = i + 2;
                    }
                },
            }
        }
    }
    assert(raw.skip(hi - lo) =~= Seq::<char>::empty());
    out
}

/// The views of a sequence of character vectors.
pub open spec fn line_views(ls: Seq<Vec<char>>) -> Seq<Seq<char>> {
    ls.map_values(|l: Vec<char>| l@)
}

/// Splits `v[lo..hi]` at every `'\n'`.
pub(crate) fn split_lines(v: &Vec<char>, lo: usize, hi: usize) -> (lines: Vec<Vec<char>>)
    requires
        lo <= hi <= v@.len(),
    ensures
        line_views(lines@) == split_on(v@.subrange(lo as int, hi as int), '\n'),
{
    let ghost raw = v@.subrange(lo as int, hi as int);
    let mut lines: Vec<Vec<char>> = Vec::new();
    let mut cur: Vec<char> = Vec::new();
    let mut i = lo;
    assert(raw.take(0) =~= Seq::<char>::empty());
    assert(line_views(lines@).push(cur@) =~= split_on(raw.take(0), '\n'));
    while i < hi
        invariant
            lo <= i <= hi <= v@.len(),
            raw == v@.subrange(lo as int, hi as int),
            line_views(lines@).push(cur@) == split_on(raw.take(i - lo), '\n'),
        decreases hi - i,
    {
        let ghost k = i - lo;
        let ghost p = split_on(raw.take(k), '\n');
        assert(raw.take(k + 1).drop_last() =~= raw.take(k));
        assert(raw.take(k + 1).last() == v@[i as int]);
        let c = v[i];
        if c == '\n' {
            let done = cur;
            lines.push(done);
            cur = Vec::new();
            assert(line_views(lines@) =~= p);
            assert(line_views(lines@).push(cur@) =~= split_on(raw.take(k + 1), '\n'));
        } else {
            cur.push(c);
            assert(line_views(lines@).push(cur@) =~= p.update(p.len() - 1, p.last().push(c)));
        }
        i = i + 1;
    }
    assert(raw.take(hi - lo) =~= raw);
    let last = cur;
    lines.push(last);
    assert(line_views(lines@) =~= split_on(raw, '\n'));
    lines
}

/// The number of spaces and tabs that `l` starts with.
fn indent_of(l: &Vec<char>) -> (r: usize)
    ensures
        r == leading_indent(l@),
        r <= l@.len(),
{
    let mut i: usize = 0;
    assert(l@.skip(0) =~= l@);
    while i < l.len() && (l[i] == ' ' || l[i] == '\t')
        invariant
            i <= l@.len(),
            leading_indent(l@) == i + leading_indent(l@.skip(i as int)),
        decreases l.len() - i,
    {
        assert(l@.skip(i as int).drop_first() =~= l@.skip(i + 1));
        i = i + 1;
    }
    assert(leading_indent(l@.skip(i as int)) == 0);
    i
}

/// Whether `l` holds Unicode whitespace only.
fn is_blank_line(l: &Vec<char>) -> (r: bool)
    ensures
        r == is_blank(l@),
{
    let mut i: usize = 0;
    while i < l.len()
        invariant
            i <= l@.len(),
            forall|j: int| 0 <= j < i ==> unicode_whitespace(#[trigger] l@[j]),
        decreases l.len() - i,
    {
        if !char_is_whitespace(l[i]) {
            return false;
        }
        i = i + 1;
    }
    true
}

/// The smallest indentation among the lines `lines[1..]` holding more than spaces and tabs.
fn common_indent_of(lines: &Vec<Vec<char>>) -> (r: usize)
    requires
        lines@.len() >= 1,
    ensures
        r == common_indent(line_views(lines@)),
{
    let ghost ls = line_views(lines@);
    let mut common: Option<usize> = None;
    let mut k: usize = 1;
    assert(ls.drop_first().take(0) =~= Seq::<Seq<char>>::empty());
    while k < lines.len()
        invariant
            1 <= k <= lines@.len(),
            ls == line_views(lines@),
            match common {
                Some(c) => min_content_indent(ls.drop_first().take(k - 1)) == Some(c as nat),
                None => min_content_indent(ls.drop_first().take(k - 1)) is None,
            },
        decreases lines.len() - k,
    {
        let ghost t = ls.drop_first().take(k as int);
        assert(t.drop_last() =~= ls.drop_first().take(k - 1));
        assert(t.last() == lines@[k as int]@);
        let ind = indent_of(&lines[k]);
        if ind < lines[k].len() {
            common = Some(
                match common {
                    Some(c) => if c <= ind {
                        c
                    } else {
                        ind
                    },
                    None => ind,
                },
            );
        }
        k = k + 1;
    }
    assert(ls.drop_first().take(lines@.len() - 1) =~= ls.drop_first());
    match common {
        Some(c) => c,
        None => 0,
    }
}

/// Removes `common` leading characters from every line but the first.
fn dedent_lines(lines: &Vec<Vec<char>>, common: usize) -> (r: Vec<Vec<char>>)
    ensures
        line_views(r@) == dedent(line_views(lines@), common as nat),
{
    let ghost ls = line_views(lines@);
    let mut out: Vec<Vec<char>> = Vec::new();
    let mut k: usize = 0;
    while k < lines.len()
        invariant
            k <= lines@.len(),
            ls == line_views(lines@),
            out@.len() == k,
            forall|j: int| 0 <= j < k ==> (#[trigger] out@[j])@ == dedent(ls, common as nat)[j],
        decreases lines.len() - k,
    {
        let n = lines[k].len();
        let line: Vec<char> = if k == 0 {
            let mut c: Vec<char> = Vec::new();
            let mut j: usize = 0;
            while j < n
                invariant
                    j <= n,
                    k < lines@.len(),
                    n == lines@[k as int]@.len(),
                    c@ == lines@[k as int]@.take(j as int),
                decreases n - j,
            {
                c.push(lines[k][j]);
                assert(lines@[k as int]@.take(j + 1) =~= lines@[k as int]@.take(j as int).push(
                    lines@[k as int]@[j as int],
                ));
                j = j + 1;
            }
            assert(lines@[k as int]@.take(n as int) =~= lines@[k as int]@);
            c
        } else if n >= common {
            let mut c: Vec<char> = Vec::new();
            let mut j: usize = common;
            while j < n
                invariant
                    common <= j <= n,
                    k < lines@.len(),
                    n == lines@[k as int]@.len(),
                    c@ == lines@[k as int]@.subrange(common as int, j as int),
                decreases n - j,
            {
                c.push(lines[k][j]);
                assert(lines@[k as int]@.subrange(common as int, j + 1) =~= lines@[
                    k as int
                ]@.subrange(common as int, j as int).push(lines@[k as int]@[j as int]));
                j = j + 1;
            }
            assert(lines@[k as int]@.subrange(common as int, n as int) =~= lines@[
                k as int
            ]@.skip(common as int));
            c
        } else {
            Vec::new()
        };
        out.push(line);
        assert(out@[k as int]@ =~= dedent(ls, common as nat)[k as int]);
        k = k + 1;
    }
    assert(line_views(out@) =~= dedent(ls, common as nat));
    out
}

/// Appends the lines `ls[lo..hi]` joined with `'\n'`.
fn join_lines(ls: &Vec<Vec<char>>, lo: usize, hi: usize) -> (r: String)
    requires
        lo <= hi <= ls@.len(),
    ensures
        r@ == join_with(line_views(ls@).subrange(lo as int, hi as int), seq!['\n']),
{
    let ghost vs = line_views(ls@);
    let mut out = String::new();
    if lo == hi {
        assert(vs.subrange(lo as int, hi as int) =~= Seq::<Seq<char>>::empty());
        return out;
    }
    crate::text::append_chars(&mut out, &ls[lo]);
    assert(vs.subrange(lo as int, lo + 1).len() == 1);
    assert(out@ =~= join_with(vs.subrange(lo as int, lo + 1), seq!['\n']));
    let mut j = lo + 1;
    while j < hi
        invariant
            lo < j <= hi <= ls@.len(),
            vs == line_views(ls@),
            out@ == join_with(vs.subrange(lo as int, j as int), seq!['\n']),
        decreases hi - j,
    {
        push_char(&mut out, '\n');
        crate::text::append_chars(&mut out, &ls[j]);
        let ghost t = vs.subrange(lo as int, j + 1);
        assert(t.drop_last() =~= vs.subrange(lo as int, j as int));
        assert(t.last() == ls@[j as int]@);
        assert(out@ =~= join_with(t, seq!['\n']));
        j = j + 1;
    }
    out
}

/// The value of a block string body `v[lo..hi]`.
pub fn block_string_value(v: &Vec<char>, lo: usize, hi: usize) -> (r: String)
    requires
        lo <= hi <= v@.len(),
    ensures
        r@ == block_string(v@.subrange(lo as int, hi as int)),
{
    let ghost raw = v@.subrange(lo as int, hi as int);
    let lines = split_lines(v, lo, hi);
    proof {
        crate::text::lemma_split_on_nonempty(raw, '\n');
    }
    let common = common_indent_of(&lines);
    let stripped = dedent_lines(&lines, common);
    let ghost ss = line_views(stripped@);
    let n = stripped.len();
    let mut first: usize = 0;
    assert(ss.skip(0) =~= ss);
    while first < n && is_blank_line(&stripped[first])
        invariant
            first <= n == stripped@.len(),
            ss == line_views(stripped@),
            drop_blank_front(ss) == drop_blank_front(ss.skip(first as int)),
        decreases n - first,
    {
        assert(ss.skip(first as int)[0] == stripped@[first as int]@);
        assert(ss.skip(first as int).drop_first() =~= ss.skip(first + 1));
        first = first + 1;
    }
    proof {
        if first < n {
            assert(ss.skip(first as int)[0] == stripped@[first as int]@);
        }
    }
    assert(drop_blank_front(ss) == ss.skip(first as int));
    let mut last = n;
    assert(ss.skip(first as int) =~= ss.subrange(first as int, n as int));
    while last > first && is_blank_line(&stripped[last - 1])
        invariant
            first <= last <= n == stripped@.len(),
            ss == line_views(stripped@),
            drop_blank_back(ss.skip(first as int)) == drop_blank_back(
                ss.subrange(first as int, last as int),
            ),
        decreases last - first,
    {
        let ghost t = ss.subrange(first as int, last as int);
        assert(t.last() == stripped@[last - 1]@);
        assert(t.drop_last() =~= ss.subrange(first as int, last - 1));
        last = last - 1;
    }
    proof {
        let t = ss.subrange(first as int, last as int);
        if last > first {
            assert(t.last() == stripped@[last - 1]@);
        }
    }
    let joined = join_lines(&stripped, first, last);
    proof {
        reveal_strlit("\\\"\"\"");
        reveal_strlit("\"\"\"");
    }
    let r = crate::text::replace_str(joined.as_str(), "\\\"\"\"", "\"\"\"");
    proof {
        assert("\\\"\"\""@ =~= escaped_triple_quote());
        assert("\"\"\""@ =~= triple_double_quote());
    }
    r
}

/// `v` without `delim` at both ends: the range of what lies between.
pub fn strip_pair(v: &Vec<char>, delim: &Vec<char>) -> (r: Option<(usize, usize)>)
    ensures
        r matches Some((a, b)) ==> a <= b <= v@.len() && strip_pair_spec(v@, delim@) == Some(
            v@.subrange(a as int, b as int),
        ),
        r is None ==> strip_pair_spec(v@, delim@) is None,
{
    let n = v.len();
    let d = delim.len();
    if n / 2 >= d && crate::text::matches_at(v, delim, 0) && crate::text::matches_at(
        v,
        delim,
        n - d,
    ) {
        assert(v@.subrange(0, d as int) =~= v@.take(d as int));
        assert(v@.subrange(n - d, n as int) =~= v@.skip(n - d));
        Some((d, n - d))
    } else {
        proof {
            if n / 2 >= d {
                assert(v@.subrange(0, d as int) =~= v@.take(d as int));
                assert(v@.subrange(n - d, n as int) =~= v@.skip(n - d));
            }
        }
        None
    }
}

/// The value of a GraphQL string literal, given by its source text
/// (quotes included).
pub fn decode_graphql_string(source: &str) -> (r: String)
    ensures
        r@ == decoded_string(source@),
{
    let v = chars_of(source);
    let d3 = vec!['"', '"', '"'];
    let s3 = vec!['\'', '\'', '\''];
    let d1 = vec!['"'];
    let s1 = vec!['\''];
    assert(d3@ =~= triple_double_quote());
    assert(s3@ =~= triple_single_quote());
    assert(d1@ =~= seq!['"']);
    assert(s1@ =~= seq!['\'']);
    if let Some((a, b)) = strip_pair(&v, &d3) {
        return block_string_value(&v, a, b);
    }
    if let Some((a, b)) = strip_pair(&v, &s3) {
        return block_string_value(&v, a, b);
    }
    if let Some((a, b)) = strip_pair(&v, &d1) {
        return single_line_value(&v, a, b);
    }
    if let Some((a, b)) = strip_pair(&v, &s1) {
        return single_line_value(&v, a, b);
    }
    crate::text::string_of(&v, 0, v.len())
}

} // verus!
