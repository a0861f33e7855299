//! Change geometry: what moved, where, in both byte and (row, column) space.

use core::ops::RangeInclusive;
use vstd::prelude::*;
use vstd::utf8::*;

use crate::text;

verus! {

/// A position in the buffer.
///
/// `col` is a **byte** offset from the start of `row`, not a character index and
/// not a display column: `-- café` puts the position after `é` at column 8, not 7.
#[derive(Debug, Clone, Copy, PartialEq, Eq, PartialOrd, Ord, Hash, Default, Structural)]
pub struct Point {
    pub row: usize,
    pub col: usize,
}

impl Point {
    /// The position at column `col` of row `row`.
    #[must_use]
    pub fn new(row: usize, col: usize) -> (r: Self)
        ensures
            r == (Point { row, col }),
    {
        Self { row, col }
    }
}

/// The geometry of a single change.
///
/// Read it as: *the region `start..old_end` was replaced by the region
/// `start..new_end`.* A pure insertion has `old_end == start`; a pure deletion
/// has `new_end == start`.
#[derive(Debug, Clone, Copy, PartialEq, Eq, Structural)]
pub struct Edit {
    pub start_byte: usize,
    pub old_end_byte: usize,
    pub new_end_byte: usize,
    pub start_point: Point,
    pub old_end_point: Point,
    pub new_end_point: Point,
}

impl Edit {
    /// The geometry that swaps the two ends.
    pub open spec fn inverse(self) -> Edit {
        Edit {
            start_byte: self.start_byte,
            old_end_byte: self.new_end_byte,
            new_end_byte: self.old_end_byte,
            start_point: self.start_point,
            old_end_point: self.new_end_point,
            new_end_point: self.old_end_point,
        }
    }

    /// Whether the change leaves row structure alone: it starts, ended and ends on
    /// one row.
    pub open spec fn single_row(self) -> bool {
        self.start_point.row == self.old_end_point.row && self.start_point.row
            == self.new_end_point.row
    }

    /// Where a position of the old text belongs in the new one.
    ///
    /// What lies before the change stays, what lies at or after its old end moves
    /// with the text there, and what lies inside it collapses to its start.
    pub open spec fn shifted(self, offset: int) -> int {
        if offset < self.start_byte {
            offset
        } else if offset >= self.old_end_byte {
            offset - self.old_end_byte + self.new_end_byte
        } else {
            self.start_byte as int
        }
    }

    /// The geometry of the change that would put things back.
    ///
    /// The struct is symmetric, so this is just a swap of the two end fields; no
    /// buffer access is needed.
    #[must_use]
    pub fn inverted(&self) -> (r: Self)
        ensures
            r == self.inverse(),
    {
        Self {
            start_byte: self.start_byte,
            old_end_byte: self.new_end_byte,
            new_end_byte: self.old_end_byte,
            start_point: self.start_point,
            old_end_point: self.new_end_point,
            new_end_point: self.old_end_point,
        }
    }

    /// Whether the change removed nothing.
    #[must_use]
    pub fn is_insertion(&self) -> (r: bool)
        ensures
            r == (self.old_end_byte == self.start_byte),
    {
        self.old_end_byte == self.start_byte
    }

    /// Whether the change inserted nothing.
    #[must_use]
    pub fn is_deletion(&self) -> (r: bool)
        ensures
            r == (self.new_end_byte == self.start_byte),
    {
        self.new_end_byte == self.start_byte
    }

    /// Whether the change stays within one row, before and after.
    #[must_use]
    pub fn is_single_row(&self) -> (r: bool)
        ensures
            r == self.single_row(),
    {
        self.start_point.row == self.old_end_point.row && self.start_point.row
            == self.new_end_point.row
    }

    /// Rows the change occupied *before* it was applied.
    #[must_use]
    pub fn old_rows(&self) -> (r: RangeInclusive<usize>)
        ensures
            r@.start == self.start_point.row,
            r@.end == self.old_end_point.row,
            !r@.exhausted,
    {
        RangeInclusive::new(self.start_point.row, self.old_end_point.row)
    }

    /// Rows the change occupies *after* being applied.
    #[must_use]
    pub fn new_rows(&self) -> (r: RangeInclusive<usize>)
        ensures
            r@.start == self.start_point.row,
            r@.end == self.new_end_point.row,
            !r@.exhausted,
    {
        RangeInclusive::new(self.start_point.row, self.new_end_point.row)
    }

    /// Carry a remembered offset through the change; see [`Edit::shifted`].
    #[must_use]
    pub fn shift(&self, offset: usize) -> (r: usize)
        requires
            self.shifted(offset as int) <= usize::MAX,
        ensures
            r == self.shifted(offset as int),
    {
        if offset < self.start_byte {
            offset
        } else if offset >= self.old_end_byte {
            offset - self.old_end_byte + self.new_end_byte
        } else {
            self.start_byte
        }
    }
}

/// A change, complete enough to apply *or* reverse without consulting a buffer.
///
/// This is the unit every history implementation stores. Because it carries the
/// text it displaced, undo is [`Change::inverted`]: histories never need to
/// snapshot the document, and never need to know what a rope is.
#[derive(Debug, PartialEq, Eq)]
pub struct Change {
    pub edit: Edit,
    /// Text that occupied `edit.start_byte..edit.old_end_byte` beforehand.
    pub removed: String,
    /// Text that occupies `edit.start_byte..edit.new_end_byte` afterwards.
    pub inserted: String,
}

/// What a [`Change`] amounts to: its geometry and the bytes on either side.
#[verifier::ext_equal]
pub struct Delta {
    pub edit: Edit,
    pub removed: Seq<u8>,
    pub inserted: Seq<u8>,
}

impl Delta {
    /// The delta that undoes this one.
    pub open spec fn inverse(self) -> Delta {
        Delta { edit: self.edit.inverse(), removed: self.inserted, inserted: self.removed }
    }

    /// Whether the delta can be applied to `t`: its extent lies on character
    /// boundaries of `t`.
    pub open spec fn reaches(self, t: Seq<u8>) -> bool {
        &&& self.edit.start_byte <= self.edit.old_end_byte <= t.len()
        &&& text::bound(t, self.edit.start_byte as int)
        &&& text::bound(t, self.edit.old_end_byte as int)
        &&& valid_utf8(self.inserted)
    }

    /// Whether the extent holds exactly the text the delta expects to displace, too.
    pub open spec fn fits(self, t: Seq<u8>) -> bool {
        &&& self.reaches(t)
        &&& t.subrange(self.edit.start_byte as int, self.edit.old_end_byte as int) == self.removed
    }

    /// Whether the byte geometry agrees with the texts carried.
    pub open spec fn sized(self) -> bool {
        &&& self.edit.old_end_byte == self.edit.start_byte + self.removed.len()
        &&& self.edit.new_end_byte == self.edit.start_byte + self.inserted.len()
    }

    /// `t` with the delta applied.
    pub open spec fn applied(self, t: Seq<u8>) -> Seq<u8> {
        text::splice(
            t,
            self.edit.start_byte as int,
            self.edit.old_end_byte as int,
            self.inserted,
        )
    }
}

impl View for Change {
    type V = Delta;

    open spec fn view(&self) -> Delta {
        Delta {
            edit: self.edit,
            removed: encode_utf8(self.removed@),
            inserted: encode_utf8(self.inserted@),
        }
    }
}

impl Clone for Change {
    fn clone(&self) -> (r: Self)
        ensures
            r == *self,
    {
        Self { edit: self.edit, removed: self.removed.clone(), inserted: self.inserted.clone() }
    }
}

impl Change {
    /// The change that undoes this one.
    #[must_use]
    pub fn inverted(&self) -> (r: Self)
        ensures
            r@ == self@.inverse(),
            r.edit == self.edit.inverse(),
            r.removed@ == self.inserted@,
            r.inserted@ == self.removed@,
    {
        Self {
            edit: self.edit.inverted(),
            removed: self.inserted.clone(),
            inserted: self.removed.clone(),
        }
    }

    /// True when applying this change would leave the buffer unchanged.
    #[must_use]
    pub fn is_noop(&self) -> (r: bool)
        ensures
            r == (self@.removed == self@.inserted),
    {
        proof {
            text::lemma_encode_injective(self.removed@, self.inserted@);
        }
        self.removed == self.inserted
    }
}

/// The position of byte `i` of `t`.
pub open spec fn point_at(t: Seq<u8>, i: int) -> Point {
    Point {
        row: text::row_of(t, i) as usize,
        col: (i - text::row_start(t, text::row_of(t, i))) as usize,
    }
}

/// Where `p` ends up after `new` is inserted there.
///
/// When `new` holds a line feed, the resulting column is measured from the start
/// of its *last* row.
pub open spec fn advanced(p: Point, new: Seq<u8>) -> Point {
    let breaks = text::newlines(new, new.len() as int);
    if breaks == 0 {
        Point { row: p.row, col: (p.col + new.len()) as usize }
    } else {
        Point {
            row: (p.row + breaks) as usize,
            col: (new.len() - text::row_start(new, breaks)) as usize,
        }
    }
}

/// The delta that replaces `a..b` of `t` by `new`.
pub open spec fn staged(t: Seq<u8>, a: int, b: int, new: Seq<u8>) -> Delta {
    Delta {
        edit: Edit {
            start_byte: a as usize,
            old_end_byte: b as usize,
            new_end_byte: (a + new.len()) as usize,
            start_point: point_at(t, a),
            old_end_point: point_at(t, b),
            new_end_point: advanced(point_at(t, a), new),
        },
        removed: t.subrange(a, b),
        inserted: new,
    }
}

/// Inverting a change twice gives the change back.
pub proof fn inverse_is_involutive(d: Delta)
    ensures
        d.inverse().inverse() == d,
{
}

/// A change and its inverse cancel: where a change fits, its inverse fits the
/// result and restores the text.
pub proof fn inverse_undoes(d: Delta, t: Seq<u8>)
    requires
        valid_utf8(t),
        d.fits(t),
        d.sized(),
    ensures
        valid_utf8(d.applied(t)),
        d.inverse().sized(),
        d.inverse().fits(d.applied(t)),
        d.inverse().applied(d.applied(t)) == t,
{
    let a = d.edit.start_byte as int;
    let b = d.edit.old_end_byte as int;
    text::lemma_splice(t, a, b, d.inserted);
    text::lemma_slice_valid(t, a, b);
    let r = d.applied(t);
    assert(r.subrange(a, a + d.inserted.len()) == d.inserted);
}

/// Staging a replacement and applying it makes it, and applying its inverse takes it
/// back, whatever the length of the text.
pub proof fn a_staged_change_can_be_taken_back(t: Seq<u8>, a: int, b: int, new: Seq<u8>)
    requires
        valid_utf8(t),
        valid_utf8(new),
        text::bound(t, a),
        text::bound(t, b),
        a <= b,
        b <= usize::MAX,
        a + new.len() <= usize::MAX,
    ensures
        ({
            let d = staged(t, a, b, new);
            &&& d.fits(t)
            &&& d.sized()
            &&& d.applied(t) == text::splice(t, a, b, new)
            &&& d.inverse().fits(d.applied(t))
            &&& d.inverse().applied(d.applied(t)) == t
            &&& d.inverse().inverse() == d
            &&& d.inverse().removed == d.inserted
            &&& d.inverse().inserted == d.removed
        }),
{
    inverse_undoes(staged(t, a, b, new), t);
}

/// A change displaces text by the same text just when applying it leaves the text as
/// it was, and then so does its inverse.
pub proof fn a_noop_leaves_the_text_alone(d: Delta, t: Seq<u8>)
    requires
        d.fits(t),
        d.sized(),
    ensures
        d.removed == d.inserted <==> d.applied(t) == t,
        d.removed == d.inserted <==> d.inverse().removed == d.inverse().inserted,
{
    let a = d.edit.start_byte as int;
    let b = d.edit.old_end_byte as int;
    let r = d.applied(t);
    if d.removed == d.inserted {
        assert(r =~= t);
    } else if r == t {
        assert(r.subrange(a, a + d.inserted.len()) =~= d.inserted);
        assert(r.len() == t.len() - (b - a) + d.inserted.len());
        assert(d.removed == t.subrange(a, b));
        assert(false);
    }
}

/// The geometry of a staged change is that of the texts it relates: its three
/// points are the positions of its three offsets, the last one in the text after
/// the change.
pub proof fn staged_points_are_positions(t: Seq<u8>, a: int, b: int, new: Seq<u8>)
    requires
        valid_utf8(t),
        valid_utf8(new),
        text::bound(t, a),
        text::bound(t, b),
        a <= b,
        t.len() + new.len() < usize::MAX,
    ensures
        staged(t, a, b, new).sized(),
        staged(t, a, b, new).fits(t),
        staged(t, a, b, new).edit.start_point == point_at(t, a),
        staged(t, a, b, new).edit.old_end_point == point_at(t, b),
        staged(t, a, b, new).edit.new_end_point == point_at(
            text::splice(t, a, b, new),
            a + new.len(),
        ),
        staged(t, a, b, new).edit.start_point == point_at(text::splice(t, a, b, new), a),
{
    let r = text::splice(t, a, b, new);
    let n = new.len() as int;
    text::lemma_splice(t, a, b, new);
    text::lemma_row_of(t, a);
    text::lemma_row_of(r, a);
    text::lemma_row_of(r, a + n);
    // both texts agree before the change
    text::lemma_newlines_prefix(t, r, a);
    let head = t.subrange(0, a);
    let tail = t.subrange(b, t.len() as int);
    assert(r =~= head + (new + tail));
    text::lemma_newlines_concat(head, new + tail, n);
    text::lemma_newlines_prefix(head, t, a);
    text::lemma_newlines_prefix(new + tail, new, n);
    let breaks = text::newlines(new, n);
    text::lemma_newlines_mono(new, 0, n);
    let row = text::row_of(t, a);
    assert(text::row_of(r, a) == row);
    assert(text::row_of(r, a + n) == row + breaks);
    // the row that holds the start begins at the same byte in both
    let s = text::row_start(t, row);
    text::lemma_row_start(t, row);
    text::lemma_row_start(r, row);
    text::lemma_newlines_prefix(t, r, s);
    assert(text::starts_row(r, row, s));
    text::lemma_starts_row_unique(r, row, s, text::row_start(r, row));
    if breaks > 0 {
        let k = text::row_start(new, breaks);
        text::lemma_row_start(new, breaks);
        text::lemma_newlines_concat(head, new + tail, k);
        text::lemma_newlines_prefix(new + tail, new, k);
        assert(k > 0) by {
            if k <= 0 {
                assert(text::newlines(new, 0) == 0);
            }
        }
        assert(r[a + k - 1] == new[k - 1]);
        assert(text::starts_row(r, row + breaks, a + k));
        text::lemma_row_start(r, row + breaks);
        text::lemma_starts_row_unique(r, row + breaks, a + k, text::row_start(r, row + breaks));
    }
}

} // verus!
