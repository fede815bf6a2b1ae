//! Which files of a project tree are scanned, and in what order the entries
//! of a directory are visited.
use vstd::prelude::*;
use vstd::utf8::encode_utf8;
use crate::text::{chars_of, same_text, string_of};

verus! {

// ---------------------------------------------------------------------------
// Schema files
// ---------------------------------------------------------------------------

/// The index of the last `.` in `s`, if any.
pub open spec fn last_dot(s: Seq<char>) -> Option<int>
    decreases s.len(),
{
    if s.len() == 0 {
        None
    } else if s.last() == '.' {
        Some(s.len() - 1)
    } else {
        last_dot(s.drop_last())
    }
}

/// The extension of a file name, as `Path::extension` gives it: the text
/// after the last `.`; none for a name without a `.`, for a name whose only
/// `.` is its first character (like `.graphql`), and for `..`.
pub open spec fn path_extension(name: Seq<char>) -> Option<Seq<char>> {
    if name == ".."@ {
        None
    } else {
        match last_dot(name) {
            None => None,
            Some(i) => if i == 0 {
                None
            } else {
                Some(name.skip(i + 1))
            },
        }
    }
}

/// Whether a file of this name is a GraphQL schema file, to be scanned: its
/// extension is exactly `graphql`.
pub fn is_schema_file(name: &str) -> (r: bool)
    ensures
        r == (path_extension(name@) == Some("graphql"@)),
{
    if same_text(name, "..") {
        return false;
    }
    proof {
        reveal_strlit("..");
        reveal_strlit("graphql");
    }
    let v = chars_of(name);
    let n = v.len();
    let mut k = n;
    assert(v@.take(n as int) =~= v@);
    while k > 0
        invariant
            k <= n == v@.len(),
            v@ == name@,
            last_dot(v@) == last_dot(v@.take(k as int)),
            forall|j: int| k <= j < n ==> #[trigger] v@[j] != '.',
        ensures
            k == 0 || v@[k - 1] == '.',
        decreases k,
    {
        let ghost t = v@.take(k as int);
        assert(t.last() == v@[k - 1]);
        if v[k - 1] == '.' {
            break;
        }
        assert(t.drop_last() =~= v@.take(k - 1));
        k = k - 1;
    }
    if k == 0 {
        assert(v@.take(0) =~= Seq::<char>::empty());
        return false;
    }
    assert(v@.take(k as int).last() == v@[k - 1]);
    assert(last_dot(v@) == Some(k - 1));
    if k == 1 {
        return false;
    }
    let ext = string_of(&v, k, n);
    assert(ext@ =~= name@.skip(k as int));
    same_text(ext.as_str(), "graphql")
}

// ---------------------------------------------------------------------------
// Visiting order
// ---------------------------------------------------------------------------

/// `a` comes no later than `b` in lexicographic byte order.
pub open spec fn bytes_le(a: Seq<u8>, b: Seq<u8>) -> bool
    decreases a.len(),
{
    if a.len() == 0 {
        true
    } else if b.len() == 0 {
        false
    } else if a[0] != b[0] {
        a[0] < b[0]
    } else {
        bytes_le(a.drop_first(), b.drop_first())
    }
}

pub open spec fn name_views(s: Seq<String>) -> Seq<Seq<char>> {
    s.map_values(|x: String| x@)
}

/// The names are in ascending order of their UTF-8 bytes.
pub open spec fn sorted_by_bytes(s: Seq<Seq<char>>) -> bool {
    forall|i: int, j: int|
        0 <= i < j < s.len() ==> bytes_le(encode_utf8(#[trigger] s[i]), encode_utf8(#[trigger] s[j]))
}

/// Calls `<[String]>::sort`. `String`s are ordered lexicographically by
/// their bytes, so the result holds the same names in ascending byte order.
#[verifier::external_body]
fn sort_names(v: &mut Vec<String>)
    ensures
        name_views(final(v)@).to_multiset() == name_views(old(v)@).to_multiset(),
        sorted_by_bytes(name_views(final(v)@)),
{
    v.sort();
}

/// The order in which the entries of a directory are visited: their names,
/// each exactly as often as given, in ascending order of their UTF-8 bytes.
pub fn visit_order(names: Vec<String>) -> (r: Vec<String>)
    ensures
        name_views(r@).to_multiset() == name_views(names@).to_multiset(),
        sorted_by_bytes(name_views(r@)),
{
    let mut v = names;
    sort_names(&mut v);
    v
}

} // verus!
