//! The source registry: one file's immutable text plus a derived table
//! of line start offsets, resolving byte offsets to line/column
//! locations and extracting line text.

use vstd::prelude::*;
use vstd::utf8::encode_utf8;
use vstd::string::StrSliceExecFns;
use crate::pos::{BytePos, ColIdx, LineIdx, Loc};
use crate::textops::copy_range;

verus! {

/// The line starts contributed by the first `j` bytes of `text`: for
/// every line-feed byte at position `p < j`, the offset `p + 1`.
pub open spec fn nl_starts(text: Seq<u8>, j: int) -> Seq<u32>
    decreases j,
{
    if j <= 0 {
        seq![]
    } else {
        nl_starts(text, j - 1) + if text[j - 1] == 10 {
            seq![j as u32]
        } else {
            seq![]
        }
    }
}

/// The table of line start offsets of `text`: line 0 starts at offset
/// 0, and a new line starts right after every line-feed byte. When the
/// text ends with a line feed, the last entry is the start of a
/// trailing empty line at `text.len()`.
pub open spec fn line_starts(text: Seq<u8>) -> Seq<u32> {
    seq![0u32] + nl_starts(text, text.len() as int)
}

/// The greatest index `l` with `starts[l] <= off`, for an ascending
/// table starting at 0 (so such an index always exists).
pub open spec fn line_of(starts: Seq<u32>, off: u32) -> int
    decreases starts.len(),
{
    if starts.len() <= 1 {
        0
    } else if starts[starts.len() - 1] <= off {
        starts.len() - 1
    } else {
        line_of(starts.drop_last(), off)
    }
}

/// End (exclusive) of the text of line `i`: up to but not including
/// the terminating line feed, or up to the end of the text for the
/// last line.
pub open spec fn spec_line_end(text: Seq<u8>, starts: Seq<u32>, i: int) -> int {
    if i + 1 < starts.len() {
        starts[i + 1] - 1
    } else {
        text.len() as int
    }
}

/// The text of line `i`, without its terminator.
pub open spec fn spec_line_text(text: Seq<u8>, starts: Seq<u32>, i: int) -> Seq<u8> {
    text.subrange(starts[i] as int, spec_line_end(text, starts, i))
}

proof fn lemma_nl_starts_props(text: Seq<u8>, j: int)
    requires
        0 <= j <= text.len(),
        j <= u32::MAX,
    ensures
        nl_starts(text, j).len() <= j,
        forall|k: int|
            0 <= k < nl_starts(text, j).len() ==> 1 <= #[trigger] nl_starts(text, j)[k] <= j,
        forall|k1: int, k2: int|
            0 <= k1 < k2 < nl_starts(text, j).len() ==> nl_starts(text, j)[k1] < nl_starts(
                text,
                j,
            )[k2],
    decreases j,
{
    if j > 0 {
        lemma_nl_starts_props(text, j - 1);
        let pre = nl_starts(text, j - 1);
        let cur = nl_starts(text, j);
        assert forall|k: int| 0 <= k < cur.len() implies 1 <= #[trigger] cur[k] <= j by {
            if k < pre.len() {
                assert(cur[k] == pre[k]);
            } else {
                assert(text[j - 1] == 10);
                assert(cur[k] == j as u32);
            }
        }
        assert forall|k1: int, k2: int| 0 <= k1 < k2 < cur.len() implies cur[k1] < cur[k2] by {
            assert(cur[k1] == pre[k1]);
            if k2 < pre.len() {
                assert(cur[k2] == pre[k2]);
            } else {
                assert(cur[k2] == j as u32);
                assert(pre[k1] <= j - 1);
            }
        }
    }
}

/// The line start table begins with 0, stays within the text, and is
/// strictly ascending.
pub proof fn lemma_line_starts_props(text: Seq<u8>)
    requires
        text.len() <= u32::MAX,
    ensures
        1 <= line_starts(text).len() <= text.len() + 1,
        line_starts(text)[0] == 0,
        forall|k: int|
            0 <= k < line_starts(text).len() ==> #[trigger] line_starts(text)[k] <= text.len(),
        forall|k1: int, k2: int|
            0 <= k1 < k2 < line_starts(text).len() ==> line_starts(text)[k1] < line_starts(
                text,
            )[k2],
{
    lemma_nl_starts_props(text, text.len() as int);
    let s = line_starts(text);
    let n = nl_starts(text, text.len() as int);
    assert forall|k: int| 0 <= k < s.len() implies #[trigger] s[k] <= text.len() by {
        if k > 0 {
            assert(s[k] == n[k - 1]);
        }
    }
    assert forall|k1: int, k2: int| 0 <= k1 < k2 < s.len() implies s[k1] < s[k2] by {
        if k1 > 0 {
            assert(s[k1] == n[k1 - 1]);
        }
        assert(s[k2] == n[k2 - 1]);
    }
}

/// `line_of` really picks the greatest start at or before `off`.
pub proof fn lemma_line_of_props(starts: Seq<u32>, off: u32)
    requires
        starts.len() >= 1,
        starts[0] == 0,
        forall|k1: int, k2: int| 0 <= k1 < k2 < starts.len() ==> starts[k1] < starts[k2],
    ensures
        0 <= line_of(starts, off) < starts.len(),
        starts[line_of(starts, off)] <= off,
        forall|k: int| line_of(starts, off) < k < starts.len() ==> starts[k] > off,
    decreases starts.len(),
{
    if starts.len() > 1 && starts[starts.len() - 1] > off {
        let pre = starts.drop_last();
        assert(pre[0] == 0);
        lemma_line_of_props(pre, off);
        assert(line_of(starts, off) == line_of(pre, off));
        assert forall|k: int| line_of(starts, off) < k < starts.len() implies starts[k] > off by {
            if k < starts.len() - 1 {
                assert(starts[k] == pre[k]);
            }
        }
    }
}

/// Any index whose start is at or before `off`, while every later
/// start is past `off`, is `line_of(starts, off)`.
pub proof fn lemma_line_of_unique(starts: Seq<u32>, off: u32, l: int)
    requires
        starts.len() >= 1,
        starts[0] == 0,
        forall|k1: int, k2: int| 0 <= k1 < k2 < starts.len() ==> starts[k1] < starts[k2],
        0 <= l < starts.len(),
        starts[l] <= off,
        forall|k: int| l < k < starts.len() ==> starts[k] > off,
    ensures
        l == line_of(starts, off),
{
    lemma_line_of_props(starts, off);
}

/// Resolving a larger offset never yields a smaller line.
pub proof fn lemma_line_of_monotone(starts: Seq<u32>, a: u32, b: u32)
    requires
        starts.len() >= 1,
        starts[0] == 0,
        forall|k1: int, k2: int| 0 <= k1 < k2 < starts.len() ==> starts[k1] < starts[k2],
        a <= b,
    ensures
        line_of(starts, a) <= line_of(starts, b),
{
    lemma_line_of_props(starts, a);
    lemma_line_of_props(starts, b);
    let la = line_of(starts, a);
    let lb = line_of(starts, b);
    if la > lb {
        assert(starts[la] > b);
        assert(starts[la] <= a);
    }
}

/// The column an offset resolves to lies within the text of its line:
/// the offset sits at or before the line's terminator.
pub proof fn lemma_col_in_line(text: Seq<u8>, starts: Seq<u32>, off: u32)
    requires
        starts == line_starts(text),
        text.len() <= u32::MAX,
        off <= text.len(),
    ensures
        starts[line_of(starts, off)] <= off,
        off <= spec_line_end(text, starts, line_of(starts, off)),
        0 <= line_of(starts, off) < starts.len(),
        starts[line_of(starts, off)] <= spec_line_end(text, starts, line_of(starts, off))
            <= text.len(),
{
    lemma_line_starts_props(text);
    lemma_line_of_props(starts, off);
    let l = line_of(starts, off);
    if l + 1 < starts.len() {
        assert(starts[l + 1] > off);
        assert(starts[l] < starts[l + 1]);
    }
}

/// Scans `src` for line-feed bytes and returns the line start table.
fn compute_lines(src: &Vec<u8>) -> (r: Vec<u32>)
    requires
        src@.len() <= u32::MAX,
    ensures
        r@ == line_starts(src@),
{
    let mut ls: Vec<u32> = Vec::new();
    ls.push(0);
    proof {
        assert(ls@ =~= seq![0u32] + nl_starts(src@, 0));
    }
    let mut j: usize = 0;
    while j < src.len()
        invariant
            j <= src@.len(),
            src@.len() <= u32::MAX,
            ls@ == seq![0u32] + nl_starts(src@, j as int),
        decreases src@.len() - j,
    {
        if src[j] == 10 {
            ls.push((j + 1) as u32);
        }
        proof {
            if src@[j as int] == 10 {
                assert(seq![0u32] + nl_starts(src@, j + 1) =~= (seq![0u32] + nl_starts(
                    src@,
                    j as int,
                )).push((j + 1) as u32));
            } else {
                assert(seq![0u32] + nl_starts(src@, j + 1) =~= seq![0u32] + nl_starts(
                    src@,
                    j as int,
                ));
            }
        }
        j = j + 1;
    }
    ls
}

/// One source file: its name, its immutable text, and (once
/// [`find_lines`](FileMap::find_lines) ran) the table of line start
/// offsets that makes offset-to-location queries valid.
pub struct FileMap {
    filename: String,
    src: Vec<u8>,
    lines: Vec<u32>,
}

impl FileMap {
    /// The raw bytes of the file's text.
    pub closed spec fn bytes(self) -> Seq<u8> {
        self.src@
    }

    /// The table of line start offsets built so far (empty before
    /// indexing).
    pub closed spec fn starts(self) -> Seq<u32> {
        self.lines@
    }

    /// The file's name.
    pub closed spec fn spec_filename(self) -> Seq<char> {
        self.filename@
    }

    /// The text fits the 32-bit offset space with room to spare:
    /// every derived display column (tab expansion widens a line to at
    /// most four times its byte length) stays well inside 32 bits.
    pub open spec fn wf(self) -> bool {
        self.bytes().len() <= 0x1fff_ffff
    }

    /// The line table is built and matches the text.
    pub open spec fn is_indexed(self) -> bool {
        self.starts() == line_starts(self.bytes())
    }

    /// Stores the text verbatim (as its UTF-8 bytes). The line index
    /// is not valid yet: `find_lines` must run before any location
    /// query.
    pub fn new(filename: String, src: String) -> (r: FileMap)
        requires
            encode_utf8(src@).len() <= 0x1fff_ffff,
        ensures
            r.wf(),
            !r.is_indexed(),
            r.bytes() == encode_utf8(src@),
            r.spec_filename() == filename@,
            r.starts() == Seq::<u32>::empty(),
    {
        let bytes = src.as_str().as_bytes_vec();
        proof {
            lemma_line_starts_props(bytes@);
            assert(Seq::<u32>::empty().len() == 0);
        }
        FileMap { filename, src: bytes, lines: Vec::new() }
    }

    /// One O(n) scan for line-feed bytes, recording each line's start
    /// offset. Idempotent; must run before `get_loc` or `get_line`.
    pub fn find_lines(&mut self)
        requires
            old(self).wf(),
        ensures
            final(self).wf(),
            final(self).is_indexed(),
            final(self).bytes() == old(self).bytes(),
            final(self).spec_filename() == old(self).spec_filename(),
            final(self).starts() == line_starts(old(self).bytes()),
    {
        self.lines = compute_lines(&self.src);
    }

    /// Whether the line table matches the text, by recomputing it.
    /// Lets an unverified caller test `is_indexed` before printing.
    pub fn is_indexed_check(&self) -> (r: bool)
        requires
            self.wf(),
        ensures
            r == self.is_indexed(),
    {
        let fresh = compute_lines(&self.src);
        if fresh.len() != self.lines.len() {
            return false;
        }
        let mut i: usize = 0;
        while i < fresh.len()
            invariant
                i <= fresh@.len(),
                fresh@.len() == self.lines@.len(),
                fresh@ == line_starts(self.src@),
                forall|k: int| 0 <= k < i ==> fresh@[k] == self.lines@[k],
            decreases fresh@.len() - i,
        {
            if fresh[i] != self.lines[i] {
                return false;
            }
            i = i + 1;
        }
        proof {
            assert(self.lines@ =~= line_starts(self.src@));
        }
        true
    }

    /// Resolves a byte offset to a 0-based line/column location: the
    /// line is the one with the greatest start at or before the
    /// offset, the column is the distance from that start. An offset
    /// equal to the text length resolves to a valid trailing location,
    /// so end-of-file spans never fail.
    pub fn get_loc(&self, offset: BytePos) -> (r: Loc)
        requires
            self.is_indexed(),
            self.wf(),
            offset.0 <= self.bytes().len(),
        ensures
            r.line.0 == line_of(self.starts(), offset.0),
            r.col.0 == offset.0 - self.starts()[line_of(self.starts(), offset.0)],
            r.line.0 < self.starts().len(),
    {
        proof {
            lemma_line_starts_props(self.src@);
            lemma_line_of_props(self.lines@, offset.0);
        }
        let off = offset.0;
        let mut lo: usize = 0;
        let mut hi: usize = self.lines.len();
        while hi - lo > 1
            invariant
                0 <= lo < hi <= self.lines@.len(),
                self.is_indexed(),
                self.wf(),
                self.lines@[lo as int] <= off,
                forall|k: int| hi <= k < self.lines@.len() ==> self.lines@[k] > off,
            decreases hi - lo,
        {
            let mid = lo + (hi - lo) / 2;
            if self.lines[mid] <= off {
                lo = mid;
            } else {
                proof {
                    lemma_line_starts_props(self.src@);
                    assert forall|k: int| mid <= k < self.lines@.len() implies self.lines@[k]
                        > off by {
                        if k > mid {
                            assert(self.lines@[mid as int] < self.lines@[k]);
                        }
                    }
                }
                hi = mid;
            }
        }
        proof {
            lemma_line_of_unique(self.lines@, off, lo as int);
        }
        let start = self.lines[lo];
        Loc { line: LineIdx(lo as u32), col: ColIdx(off - start) }
    }

    /// The text of the given line without its terminator, or `None`
    /// past the last line.
    pub fn get_line(&self, line: LineIdx) -> (r: Option<Vec<u8>>)
        requires
            self.is_indexed(),
            self.wf(),
        ensures
            (line.0 as int) < self.starts().len() ==> (r matches Some(v) && v@ == spec_line_text(
                self.bytes(),
                self.starts(),
                line.0 as int,
            )),
            (line.0 as int) >= self.starts().len() ==> r is None,
    {
        proof {
            lemma_line_starts_props(self.src@);
        }
        let i = line.0 as usize;
        if i < self.lines.len() {
            let from = self.lines[i] as usize;
            let to: usize = if i + 1 < self.lines.len() {
                (self.lines[i + 1] - 1) as usize
            } else {
                self.src.len()
            };
            Some(copy_range(&self.src, from, to))
        } else {
            None
        }
    }

    /// The file's name.
    pub fn filename(&self) -> (r: &String)
        ensures
            r@ == self.spec_filename(),
    {
        &self.filename
    }

    /// The length of the text in bytes.
    pub fn len_bytes(&self) -> (r: usize)
        ensures
            r == self.bytes().len(),
    {
        self.src.len()
    }

    /// The number of entries in the line table (the number of lines,
    /// counting the trailing empty line of a text that ends with a
    /// line feed).
    pub fn num_lines(&self) -> (r: usize)
        ensures
            r == self.starts().len(),
    {
        self.lines.len()
    }
}

} // verus!
