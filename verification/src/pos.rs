//! Types and functions dealing with positions within the source code.

use vstd::prelude::*;

verus! {

/// Type to index one byte in a source code. It should be rather small,
/// since it's used a lot.
pub type SrcOffset = u32;

/// Position within source specified by byte offset. This is not equal to
/// a char position thanks to UTF-8 and multibyte chars.
#[derive(Clone, Copy, PartialEq, Eq, Structural, PartialOrd, Ord, Hash, Debug)]
pub struct BytePos(pub SrcOffset);

impl Default for BytePos {
    /// The zero offset.
    fn default() -> (r: Self)
        ensures
            r == BytePos(0),
    {
        BytePos(0)
    }
}

/// A region within the source specified by first and last byte offset.
/// The `lo` byte is included in the span, the `hi` byte is excluded.
///
/// The pair `lo == 1, hi == 0` is the dedicated dummy sentinel meaning
/// "no location"; every consumer recognizes it explicitly instead of
/// treating it as a tiny interval.
#[derive(Clone, Copy, PartialEq, Eq, Structural, Hash, Debug)]
pub struct Span {
    pub lo: BytePos,
    pub hi: BytePos,
}

impl Span {
    /// True for the dedicated "no location" sentinel.
    pub open spec fn spec_is_dummy(self) -> bool {
        self.lo.0 == 1 && self.hi.0 == 0
    }

    /// A span is well formed when it is the dummy sentinel or a real
    /// interval with `lo <= hi`. An end-before-start pair other than the
    /// sentinel is a caller error and is never produced by this crate.
    pub open spec fn wf(self) -> bool {
        self.spec_is_dummy() || self.lo.0 <= self.hi.0
    }

    /// Number of bytes covered by the span; 0 for the dummy span.
    pub open spec fn spec_len(self) -> SrcOffset {
        if self.spec_is_dummy() {
            0
        } else {
            (self.hi.0 - self.lo.0) as SrcOffset
        }
    }

    /// Smallest span enclosing both arguments, where dummy spans are
    /// ignored (the other argument is returned).
    pub open spec fn spec_hull(self, other: Span) -> Span {
        if self.spec_is_dummy() {
            other
        } else if other.spec_is_dummy() {
            self
        } else {
            (Span {
                lo: BytePos(if self.lo.0 <= other.lo.0 { self.lo.0 } else { other.lo.0 }),
                hi: BytePos(if self.hi.0 >= other.hi.0 { self.hi.0 } else { other.hi.0 }),
            })
        }
    }

    /// True iff `self` is not dummy and the interval of `other` lies
    /// within the interval of `self`.
    pub open spec fn spec_contains(self, other: Span) -> bool {
        !self.spec_is_dummy() && self.lo.0 <= other.lo.0 && self.hi.0 >= other.hi.0
    }

    /// Creates a span that points to a single byte.
    pub fn single(pos: BytePos) -> (r: Span)
        requires
            pos.0 < SrcOffset::MAX,
        ensures
            r.lo == pos,
            r.hi.0 == pos.0 + 1,
            !r.spec_is_dummy(),
            r.wf(),
    {
        Span { lo: pos, hi: BytePos(pos.0 + 1) }
    }

    /// Creates a span from a lo and hi (shorter than struct constructor
    /// syntax).
    pub fn new(lo: BytePos, hi: BytePos) -> (r: Span)
        ensures
            r == (Span { lo, hi }),
    {
        Span { lo, hi }
    }

    /// Creates a span from a tuple.
    pub fn from_pair(pair: (BytePos, BytePos)) -> (r: Span)
        ensures
            r == (Span { lo: pair.0, hi: pair.1 }),
    {
        Span { lo: pair.0, hi: pair.1 }
    }

    /// Creates a dummy span. Should be used with caution.
    pub fn dummy() -> (r: Span)
        ensures
            r.spec_is_dummy(),
            r == (Span { lo: BytePos(1), hi: BytePos(0) }),
    {
        Span { lo: BytePos(1), hi: BytePos(0) }
    }

    /// Checks if this span is a dummy span.
    pub fn is_dummy(&self) -> (r: bool)
        ensures
            r == self.spec_is_dummy(),
    {
        self.lo.0 == 1 && self.hi.0 == 0
    }

    /// Returns the length (number of bytes) of the span or 0 if it's a
    /// dummy span.
    pub fn len(&self) -> (r: SrcOffset)
        requires
            self.wf(),
        ensures
            r == self.spec_len(),
            self.spec_is_dummy() ==> r == 0,
    {
        if self.is_dummy() {
            0
        } else {
            self.hi.0 - self.lo.0
        }
    }

    /// Returns the smallest span which encloses both given spans.
    ///
    /// If one of the given spans is a dummy span, it is ignored and the
    /// other span is returned. If both spans are dummy spans, a dummy
    /// span is returned.
    pub fn hull(&self, other: &Span) -> (r: Span)
        ensures
            r == self.spec_hull(*other),
    {
        if self.is_dummy() {
            *other
        } else if other.is_dummy() {
            *self
        } else {
            Span {
                lo: if self.lo.0 <= other.lo.0 { self.lo } else { other.lo },
                hi: if self.hi.0 >= other.hi.0 { self.hi } else { other.hi },
            }
        }
    }

    /// Checks if this span contains another span. A dummy span never
    /// contains any other span (always returns `false`).
    pub fn contains(&self, other: Span) -> (r: bool)
        ensures
            r == self.spec_contains(other),
    {
        !self.is_dummy() && self.lo.0 <= other.lo.0 && self.hi.0 >= other.hi.0
    }
}

/// The hull of a span with itself is that span again; this also covers
/// the dummy span, whose hull with itself is the dummy span.
pub proof fn lemma_hull_self(a: Span)
    ensures
        a.spec_hull(a) == a,
{
}

/// Taking the hull is commutative, for well-formed spans and malformed
/// ones alike.
pub proof fn lemma_hull_commutative(a: Span, b: Span)
    ensures
        a.spec_hull(b) == b.spec_hull(a),
{
}

/// The hull of two non-dummy well-formed spans contains both of them.
/// (With a dummy argument this fails: the hull of a span `a` with the
/// dummy span is `a` itself, and no span contains the dummy span.)
pub proof fn lemma_hull_contains(a: Span, b: Span)
    requires
        a.wf(),
        b.wf(),
        !a.spec_is_dummy(),
        !b.spec_is_dummy(),
    ensures
        a.spec_hull(b).spec_contains(a),
        a.spec_hull(b).spec_contains(b),
        !a.spec_hull(b).spec_is_dummy(),
        a.spec_hull(b).wf(),
{
}

/// The dummy span reports itself as dummy, has length 0, contains no
/// span at all, and is the identity of `hull`.
pub proof fn lemma_dummy_properties(x: Span)
    ensures
        (Span { lo: BytePos(1), hi: BytePos(0) }).spec_is_dummy(),
        (Span { lo: BytePos(1), hi: BytePos(0) }).spec_len() == 0,
        !(Span { lo: BytePos(1), hi: BytePos(0) }).spec_contains(x),
        (Span { lo: BytePos(1), hi: BytePos(0) }).spec_hull(x) == x,
{
}

/// Represents a line index.
#[derive(Clone, Copy, PartialEq, Eq, Structural, PartialOrd, Ord, Hash, Debug)]
pub struct LineIdx(pub SrcOffset);

impl Default for LineIdx {
    /// The first line.
    fn default() -> (r: Self)
        ensures
            r == LineIdx(0),
    {
        LineIdx(0)
    }
}

/// Represents a column index.
#[derive(Clone, Copy, PartialEq, Eq, Structural, PartialOrd, Ord, Hash, Debug)]
pub struct ColIdx(pub SrcOffset);

impl Default for ColIdx {
    /// The first column.
    fn default() -> (r: Self)
        ensures
            r == ColIdx(0),
    {
        ColIdx(0)
    }
}

/// Location within one file specified by line and column. Both indices
/// are 0-based internally; lines are displayed 1-based.
#[derive(Clone, Copy, PartialEq, Eq, Structural, Hash, Debug)]
pub struct Loc {
    pub line: LineIdx,
    pub col: ColIdx,
}

} // verus!
