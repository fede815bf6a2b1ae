//! Line and column of a byte offset into a source text.
use vstd::prelude::*;
use vstd::utf8::encode_utf8;

verus! {

/// The byte offsets at which the lines of `b` start: 0, and one past each
/// `'\n'` byte.
pub open spec fn line_starts_of(b: Seq<u8>) -> Seq<int>
    decreases b.len(),
{
    if b.len() == 0 {
        seq![0]
    } else {
        let p = line_starts_of(b.drop_last());
        if b.last() == 10 {
            p.push(b.len() as int)
        } else {
            p
        }
    }
}

/// The index of the last line start that is not after `offset`.
pub open spec fn line_of(starts: Seq<int>, offset: int) -> int
    decreases starts.len(),
{
    if starts.len() == 0 {
        -1
    } else if starts.last() <= offset {
        starts.len() - 1
    } else {
        line_of(starts.drop_last(), offset)
    }
}

/// The 1-based line and column of `offset`, given the line starts.
pub open spec fn position_of(starts: Seq<int>, offset: int) -> (int, int) {
    let k = line_of(starts, offset);
    (k + 1, offset - starts[k] + 1)
}

pub open spec fn strictly_increasing(s: Seq<int>) -> bool {
    forall|i: int, j: int| 0 <= i < j < s.len() ==> s[i] < s[j]
}

/// The line starts begin with 0, increase strictly and stay within the text.
pub proof fn lemma_line_starts_shape(b: Seq<u8>)
    ensures
        line_starts_of(b).len() >= 1,
        line_starts_of(b)[0] == 0,
        strictly_increasing(line_starts_of(b)),
        forall|i: int| 0 <= i < line_starts_of(b).len() ==> #[trigger] line_starts_of(b)[i] <= b.len(),
    decreases b.len(),
{
    if b.len() > 0 {
        lemma_line_starts_shape(b.drop_last());
    }
}

proof fn lemma_line_of_bracket(starts: Seq<int>, offset: int, k: int)
    requires
        strictly_increasing(starts),
        0 <= k < starts.len(),
        starts[k] <= offset,
        k + 1 == starts.len() || starts[k + 1] > offset,
    ensures
        line_of(starts, offset) == k,
    decreases starts.len(),
{
    if k + 1 < starts.len() {
        assert(starts.last() >= starts[k + 1]);
        lemma_line_of_bracket(starts.drop_last(), offset, k);
    }
}

/// Line starts of a source text, for turning byte offsets into positions.
pub struct LineIndex {
    line_starts: Vec<usize>,
}

impl LineIndex {
    /// The line starts, as integers.
    pub closed spec fn starts(&self) -> Seq<int> {
        self.line_starts@.map_values(|x: usize| x as int)
    }

    /// The line starts begin with 0 and increase strictly.
    #[verifier::type_invariant]
    spec fn well_formed(&self) -> bool {
        &&& self.starts().len() >= 1
        &&& self.starts()[0] == 0
        &&& strictly_increasing(self.starts())
    }

    /// The index of `source`.
    pub fn new(source: &str) -> (r: LineIndex)
        ensures
            r.starts() == line_starts_of(encode_utf8(source@)),
    {
        let bytes = source.as_bytes();
        let n = bytes.len();
        let mut line_starts: Vec<usize> = vec![0];
        let mut i: usize = 0;
        assert(bytes@.take(0) =~= Seq::<u8>::empty());
        assert(line_starts@.map_values(|x: usize| x as int) =~= line_starts_of(bytes@.take(0)));
        while i < n
            invariant
                i <= n == bytes@.len(),
                line_starts@.map_values(|x: usize| x as int) == line_starts_of(bytes@.take(i as int)),
            decreases n - i,
        {
            let ghost t = bytes@.take(i + 1);
            assert(t.drop_last() =~= bytes@.take(i as int));
            assert(t.last() == bytes@[i as int]);
            if bytes[i] == 10u8 {
                let ghost before = line_starts@;
                line_starts.push(i + 1);
                assert(line_starts@.map_values(|x: usize| x as int) =~= before.map_values(
                    |x: usize| x as int,
                ).push(i + 1));
            }
            i = i + 1;
        }
        assert(bytes@.take(n as int) =~= bytes@);
        proof {
            lemma_line_starts_shape(bytes@);
        }
        LineIndex { line_starts }
    }

    /// The 1-based line and column of a byte offset.
    pub fn position(&self, offset: usize) -> (r: (usize, usize))
        requires
            offset < usize::MAX,
        ensures
            r.0 as int == position_of(self.starts(), offset as int).0,
            r.1 as int == position_of(self.starts(), offset as int).1,
    {
        proof {
            use_type_invariant(self);
        }
        let ghost s = self.starts();
        let n = self.line_starts.len();
        assert(s[0] == self.line_starts@[0] as int);
        let mut lo: usize = 0;
        let mut hi: usize = n;
        while hi - lo > 1
            invariant
                0 <= lo < hi <= n == self.line_starts@.len(),
                s == self.starts(),
                strictly_increasing(s),
                s[lo as int] <= offset,
                hi == n || s[hi as int] > offset,
            decreases hi - lo,
        {
            let mid = lo + (hi - lo) / 2;
            assert(s[mid as int] == self.line_starts@[mid as int] as int);
            if self.line_starts[mid] <= offset {
                lo = mid;
            } else {
                hi = mid;
            }
        }
        proof {
            if lo + 1 < n {
                assert(hi == lo + 1);
            }
            lemma_line_of_bracket(s, offset as int, lo as int);
        }
        let start = self.line_starts[lo];
        assert(s[lo as int] == start as int);
        (lo + 1, offset - start + 1)
    }
}

} // verus!
