//! The text buffer. Knows nothing about modes, keys, history or rendering.

use core::ops::Range;
use ropey::{LineType, Rope, RopeSlice};
use vstd::prelude::*;
use vstd::utf8::*;

use crate::edit;
use crate::edit::{Change, Edit, Point};
use crate::strings;
use crate::text;

verus! {

/// The longest text a buffer holds, in bytes. No allocation is larger.
pub const MAX_LEN: usize = usize::MAX / 2;

// ---------------------------------------------------------------------------
// the rope
// ---------------------------------------------------------------------------

#[verifier::external_type_specification]
#[verifier::external_body]
pub struct ExRope(ropey::Rope);

#[verifier::external_type_specification]
#[verifier::external_body]
pub struct ExRopeSlice<'a>(ropey::RopeSlice<'a>);

/// The UTF-8 bytes a rope holds.
pub uninterp spec fn rope_text(rope: Rope) -> Seq<u8>;

/// The UTF-8 bytes a rope slice covers.
pub uninterp spec fn slice_text(slice: RopeSlice) -> Seq<u8>;

/// `Rope::new`: the empty rope.
pub assume_specification[ Rope::new ]() -> (r: Rope)
    ensures
        rope_text(r) == Seq::<u8>::empty(),
;

/// `Rope::from_str`: a rope that holds the given text.
pub assume_specification[ Rope::from_str ](s: &str) -> (r: Rope)
    ensures
        rope_text(r) == encode_utf8(s@),
;

/// `Rope::len`: how many bytes the rope holds.
pub assume_specification[ Rope::len ](rope: &Rope) -> (r: usize)
    ensures
        r == rope_text(*rope).len(),
;

/// `Rope::chunk`: a stretch of the rope's text and the offset it begins at. Unless
/// the index is the end of the rope, the stretch holds the byte at the index.
pub assume_specification<'a>[ Rope::chunk ](rope: &'a Rope, byte_idx: usize) -> (r: (
    &'a str,
    usize,
))
    requires
        byte_idx <= rope_text(*rope).len(),
    ensures
        r.1 + encode_utf8(r.0@).len() <= rope_text(*rope).len(),
        encode_utf8(r.0@) == rope_text(*rope).subrange(
            r.1 as int,
            r.1 + encode_utf8(r.0@).len(),
        ),
        byte_idx < rope_text(*rope).len() ==> r.1 <= byte_idx < r.1 + encode_utf8(r.0@).len(),
;

/// `Rope::clone`: a rope that holds the same text.
#[verifier::external_body]
fn clone_rope(rope: &Rope) -> (r: Rope)
    ensures
        rope_text(r) == rope_text(*rope),
{
    rope.clone()
}

/// `Rope::len_lines`, rows being counted by line feeds: one more than the line
/// feeds in the rope.
#[verifier::external_body]
fn line_count(rope: &Rope) -> (r: usize)
    requires
        rope_text(*rope).len() <= MAX_LEN,
    ensures
        r == text::rows(rope_text(*rope)),
{
    rope.len_lines(LineType::LF)
}

/// `Rope::byte_to_line_idx`, rows being counted by line feeds: the line feeds
/// before the given offset.
#[verifier::external_body]
fn line_of_byte(rope: &Rope, byte: usize) -> (r: usize)
    requires
        byte <= rope_text(*rope).len(),
    ensures
        r == text::row_of(rope_text(*rope), byte as int),
{
    rope.byte_to_line_idx(byte, LineType::LF)
}

/// `Rope::line_to_byte_idx`, rows being counted by line feeds: the offset the row
/// begins at, and the end of the rope for the row one past the last.
#[verifier::external_body]
fn byte_of_line(rope: &Rope, row: usize) -> (r: usize)
    requires
        row <= text::rows(rope_text(*rope)),
    ensures
        r == text::row_start(rope_text(*rope), row as int),
{
    rope.line_to_byte_idx(row, LineType::LF)
}

/// `Rope::slice`: a view of a stretch of the rope that begins and ends at
/// character boundaries.
#[verifier::external_body]
fn slice_rope<'a>(rope: &'a Rope, start: usize, end: usize) -> (r: RopeSlice<'a>)
    requires
        start <= end,
        text::bound(rope_text(*rope), start as int),
        text::bound(rope_text(*rope), end as int),
    ensures
        slice_text(r) == rope_text(*rope).subrange(start as int, end as int),
{
    rope.slice(start..end)
}

/// `RopeSlice::to_string`: the text the slice covers.
#[verifier::external_body]
fn slice_string(slice: RopeSlice<'_>) -> (r: String)
    ensures
        encode_utf8(r@) == slice_text(slice),
{
    slice.to_string()
}

/// `Rope::remove`: takes out a stretch that begins and ends at character
/// boundaries.
#[verifier::external_body]
fn remove_from(rope: &mut Rope, start: usize, end: usize)
    requires
        start <= end,
        text::bound(rope_text(*old(rope)), start as int),
        text::bound(rope_text(*old(rope)), end as int),
    ensures
        rope_text(*final(rope)) == rope_text(*old(rope)).subrange(0, start as int) + rope_text(
            *old(rope),
        ).subrange(end as int, rope_text(*old(rope)).len() as int),
{
    rope.remove(start..end)
}

/// `Rope::insert`: puts text in at a character boundary.
#[verifier::external_body]
fn insert_into(rope: &mut Rope, at: usize, text: &str)
    requires
        text::bound(rope_text(*old(rope)), at as int),
        rope_text(*old(rope)).len() + encode_utf8(text@).len() <= MAX_LEN,
    ensures
        rope_text(*final(rope)) == rope_text(*old(rope)).subrange(0, at as int) + encode_utf8(
            text@,
        ) + rope_text(*old(rope)).subrange(at as int, rope_text(*old(rope)).len() as int),
{
    rope.insert(at, text)
}

/// `Rope::chars_at` and one step forward: the character that begins at the
/// offset, or nothing at the end of the rope.
#[verifier::external_body]
fn char_after(rope: &Rope, byte: usize) -> (r: Option<char>)
    requires
        valid_utf8(rope_text(*rope)),
        text::bound(rope_text(*rope), byte as int),
    ensures
        r == text::char_at(rope_text(*rope), byte as int),
{
    rope.chars_at(byte).next()
}

/// `Rope::chars_at` and one step back: the character that ends at the offset, or
/// nothing at the start of the rope.
#[verifier::external_body]
fn char_ahead_of(rope: &Rope, byte: usize) -> (r: Option<char>)
    requires
        valid_utf8(rope_text(*rope)),
        text::bound(rope_text(*rope), byte as int),
    ensures
        r == text::char_before(rope_text(*rope), byte as int),
{
    rope.chars_at(byte).prev()
}

// ---------------------------------------------------------------------------
// the buffer
// ---------------------------------------------------------------------------

/// A UTF-8 text buffer addressed entirely in **byte** offsets.
///
/// Every index in this type's public API is a byte offset, and every [`Point`]
/// column is a byte offset within its row. Rows are counted by line feeds only; a
/// `\r` before one is ordinary content that belongs to the row's terminator. Line
/// endings are never rewritten.
#[derive(Debug)]
pub struct Buffer {
    rope: Rope,
}

impl View for Buffer {
    type V = Seq<u8>;

    closed spec fn view(&self) -> Seq<u8> {
        rope_text(self.rope)
    }
}

impl Clone for Buffer {
    fn clone(&self) -> (r: Self)
        ensures
            r@ == self@,
    {
        Self { rope: clone_rope(&self.rope) }
    }
}

impl Default for Buffer {
    fn default() -> (r: Self)
        ensures
            r@ == Seq::<u8>::empty(),
            r.wf(),
    {
        proof {
            encode_utf8_valid_utf8(Seq::<char>::empty());
            assert(encode_utf8(Seq::<char>::empty()) =~= Seq::<u8>::empty());
        }
        Self { rope: Rope::new() }
    }
}

/// The byte `point` names in `t`, pulled into the text: a row past the last counts
/// as the last, and a column past the content of its row as the end of it.
pub open spec fn byte_of_point(t: Seq<u8>, point: Point) -> int {
    let row = if point.row < text::rows(t) {
        point.row as int
    } else {
        text::rows(t) - 1
    };
    let at = text::row_start(t, row) + point.col;
    if at < text::content_end(t, row) {
        at
    } else {
        text::content_end(t, row)
    }
}

impl Buffer {
    /// What every buffer keeps: its bytes are UTF-8 and no more than [`MAX_LEN`].
    pub open spec fn wf(&self) -> bool {
        &&& valid_utf8(self@)
        &&& self@.len() <= MAX_LEN
    }

    /// Whether `range` can be replaced: it lies in the buffer and begins and ends
    /// at character boundaries.
    pub open spec fn covers(&self, range: Range<usize>) -> bool {
        &&& range.start <= range.end
        &&& text::bound(self@, range.start as int)
        &&& text::bound(self@, range.end as int)
    }

    /// An empty buffer.
    #[must_use]
    pub fn new() -> (r: Self)
        ensures
            r@ == Seq::<u8>::empty(),
            r.wf(),
    {
        Self::default()
    }

    /// A buffer that holds `text`.
    #[must_use]
    pub fn from_text(text: &str) -> (r: Self)
        ensures
            r@ == encode_utf8(text@),
            encode_utf8(text@).len() <= MAX_LEN ==> r.wf(),
    {
        proof {
            encode_utf8_valid_utf8(text@);
        }
        Self { rope: Rope::from_str(text) }
    }

    /// The rope underneath.
    #[must_use]
    pub fn rope(&self) -> (r: &Rope)
        ensures
            rope_text(*r) == self@,
    {
        &self.rope
    }

    /// A view of `range`, without copying it.
    #[must_use]
    pub fn slice(&self, range: Range<usize>) -> (r: RopeSlice<'_>)
        requires
            self.covers(range),
        ensures
            slice_text(r) == self@.subrange(range.start as int, range.end as int),
    {
        slice_rope(&self.rope, range.start, range.end)
    }

    /// The length of the text in bytes.
    #[must_use]
    pub fn len_bytes(&self) -> (r: usize)
        ensures
            r == self@.len(),
    {
        self.rope.len()
    }

    /// Whether the buffer holds no text.
    #[must_use]
    pub fn is_empty(&self) -> (r: bool)
        ensures
            r == (self@.len() == 0),
    {
        self.rope.len() == 0
    }

    /// Number of rows. A buffer with no trailing newline still counts its final
    /// partial row, and an empty buffer has one row.
    #[must_use]
    pub fn len_rows(&self) -> (r: usize)
        requires
            self.wf(),
        ensures
            r == text::rows(self@),
            1 <= r <= self@.len() + 1,
    {
        proof {
            text::lemma_row_of(self@, 0);
        }
        line_count(&self.rope)
    }

    /// The byte at `idx`, without materialising anything.
    #[must_use]
    pub fn byte(&self, idx: usize) -> (r: u8)
        requires
            idx < self@.len(),
        ensures
            r == self@[idx as int],
    {
        let (chunk, chunk_start): (&str, usize) = self.rope.chunk(idx);
        chunk.as_bytes()[idx - chunk_start]
    }

    /// The character that begins at `byte`, or nothing at the end of the buffer.
    #[must_use]
    pub fn char_at(&self, byte: usize) -> (r: Option<char>)
        requires
            self.wf(),
            text::bound(self@, byte as int),
        ensures
            r == text::char_at(self@, byte as int),
    {
        char_after(&self.rope, byte)
    }

    /// The character that ends at `byte`, or nothing at the start of the buffer.
    #[must_use]
    pub fn char_before(&self, byte: usize) -> (r: Option<char>)
        requires
            self.wf(),
            text::bound(self@, byte as int),
        ensures
            r == text::char_before(self@, byte as int),
    {
        char_ahead_of(&self.rope, byte)
    }

    /// Whether `byte` is a character boundary of the buffer.
    #[must_use]
    pub fn is_boundary(&self, byte: usize) -> (r: bool)
        ensures
            r == text::bound(self@, byte as int),
    {
        let len: usize = self.len_bytes();
        if byte >= len {
            byte == len
        } else {
            let b: u8 = self.byte(byte);
            !(0x80 <= b && b <= 0xbf)
        }
    }

    /// The position of `byte`.
    #[must_use]
    pub fn byte_to_point(&self, byte: usize) -> (r: Point)
        requires
            self.wf(),
            byte <= self@.len(),
        ensures
            r == edit::point_at(self@, byte as int),
            r.row == text::row_of(self@, byte as int),
            r.row < text::rows(self@),
            r.col == byte - text::row_start(self@, r.row as int),
            0 <= text::row_start(self@, r.row as int) <= byte,
    {
        proof {
            text::lemma_row_of(self@, byte as int);
        }
        let row: usize = line_of_byte(&self.rope, byte);
        let row_start: usize = byte_of_line(&self.rope, row);
        Point::new(row, byte - row_start)
    }

    /// The byte a position names. Clamps into the buffer, so callers converting a
    /// stale point don't have to validate it first.
    #[must_use]
    pub fn point_to_byte(&self, point: Point) -> (r: usize)
        requires
            self.wf(),
        ensures
            r == byte_of_point(self@, point),
    {
        let rows: usize = self.len_rows();
        let row: usize = if point.row < rows {
            point.row
        } else {
            rows - 1
        };
        let content: Range<usize> = self.row_content_range(row);
        let at: usize = content.start.saturating_add(point.col);
        if at < content.end {
            at
        } else {
            content.end
        }
    }

    /// Byte range of `row` **including** its line terminator. The row one past the
    /// last is the empty range at the end.
    #[must_use]
    pub fn row_range(&self, row: usize) -> (r: Range<usize>)
        requires
            self.wf(),
            row <= text::rows(self@),
        ensures
            r.start == text::row_start(self@, row as int),
            r.end == text::row_end(self@, row as int),
            r.start <= r.end <= self@.len(),
            text::bound(self@, r.start as int),
            text::bound(self@, r.end as int),
    {
        proof {
            text::lemma_row_of(self@, 0);
            if row < text::rows(self@) {
                text::lemma_rows(self@, row as int);
                text::lemma_row_bounds(self@, row as int);
            }
        }
        let start: usize = byte_of_line(&self.rope, row);
        let end: usize = if row + 1 < self.len_rows() {
            byte_of_line(&self.rope, row + 1)
        } else {
            self.rope.len()
        };
        start..end
    }

    /// Byte range of `row` **excluding** its line terminator: a line feed, and a
    /// carriage return before it. A carriage return on its own is content.
    ///
    /// This is the range a line-scoped operation should target, so that restoring
    /// a row's content never disturbs the row structure.
    #[must_use]
    pub fn row_content_range(&self, row: usize) -> (r: Range<usize>)
        requires
            self.wf(),
            row <= text::rows(self@),
        ensures
            r.start == text::row_start(self@, row as int),
            r.end == text::content_end(self@, row as int),
            r.start <= r.end <= self@.len(),
            text::bound(self@, r.start as int),
            text::bound(self@, r.end as int),
    {
        let full: Range<usize> = self.row_range(row);
        let mut end: usize = full.end;
        if end > full.start && self.byte(end - 1) == 10u8 {
            end -= 1;
            if end > full.start && self.byte(end - 1) == 13u8 {
                end -= 1;
            }
        }
        proof {
            if row < text::rows(self@) {
                text::lemma_row_bounds(self@, row as int);
            }
        }
        full.start..end
    }

    /// The text of `row`, without its line terminator.
    #[must_use]
    pub fn row_text(&self, row: usize) -> (r: String)
        requires
            self.wf(),
            row <= text::rows(self@),
        ensures
            encode_utf8(r@) == self@.subrange(
                text::row_start(self@, row as int),
                text::content_end(self@, row as int),
            ),
    {
        self.text_in(self.row_content_range(row))
    }

    /// The text of `range`.
    #[must_use]
    pub fn text_in(&self, range: Range<usize>) -> (r: String)
        requires
            self.covers(range),
        ensures
            encode_utf8(r@) == self@.subrange(range.start as int, range.end as int),
    {
        slice_string(self.slice(range))
    }

    /// The whole text.
    #[must_use]
    pub fn to_string(&self) -> (r: String)
        requires
            self.wf(),
        ensures
            encode_utf8(r@) == self@,
    {
        proof {
            text::lemma_ends(self@);
            assert(self@.subrange(0, self@.len() as int) =~= self@);
        }
        self.text_in(0..self.len_bytes())
    }

    /// The [`Change`] that replacing `range` with `text` would produce, **without**
    /// mutating anything.
    ///
    /// Separating this from [`Buffer::apply`] lets a history observe the pre-image
    /// of a change.
    #[must_use]
    pub fn stage_replace(&self, range: Range<usize>, text: &str) -> (r: Change)
        requires
            self.wf(),
            self.covers(range),
            range.start + encode_utf8(text@).len() <= usize::MAX,
        ensures
            r@ == edit::staged(self@, range.start as int, range.end as int, encode_utf8(text@)),
            r@.sized(),
            r@.fits(self@),
    {
        let start_point: Point = self.byte_to_point(range.start);
        let len: usize = strings::byte_len(text);
        proof {
            encode_utf8_valid_utf8(text@);
            text::lemma_row_of(self@, range.start as int);
            text::lemma_newlines_mono(self@, 0, range.start as int);
        }
        Change {
            edit: Edit {
                start_byte: range.start,
                old_end_byte: range.end,
                new_end_byte: range.start + len,
                start_point,
                old_end_point: self.byte_to_point(range.end),
                new_end_point: advance(start_point, text),
            },
            removed: self.text_in(range),
            inserted: text.to_owned(),
        }
    }

    /// Apply a previously staged change: its extent gives way to the text it inserts,
    /// also where the extent no longer holds the text that was staged.
    pub fn apply(&mut self, change: &Change)
        requires
            old(self).wf(),
            change@.reaches(old(self)@),
            change@.applied(old(self)@).len() <= MAX_LEN,
        ensures
            final(self)@ == change@.applied(old(self)@),
            final(self).wf(),
    {
        let start: usize = change.edit.start_byte;
        let end: usize = change.edit.old_end_byte;
        let ghost t = self@;
        let ghost new = encode_utf8(change.inserted@);
        let ghost cut = t.subrange(0, start as int) + t.subrange(end as int, t.len() as int);
        proof {
            text::lemma_splice(t, start as int, end as int, new);
            encode_utf8_valid_utf8(Seq::<char>::empty());
            assert(encode_utf8(Seq::<char>::empty()) =~= Seq::<u8>::empty());
            text::lemma_splice(t, start as int, end as int, Seq::<u8>::empty());
            assert(text::splice(t, start as int, end as int, Seq::<u8>::empty()) =~= cut);
        }
        if end > start {
            remove_from(&mut self.rope, start, end);
        }
        assert(self@ =~= cut);
        if !change.inserted.as_str().is_empty() {
            insert_into(&mut self.rope, start, change.inserted.as_str());
        } else {
            assert(new =~= Seq::<u8>::empty());
        }
        assert(self@ =~= change@.applied(t));
    }

    /// Stage and apply in one step, for callers that keep no history.
    pub fn replace(&mut self, range: Range<usize>, text: &str) -> (r: Change)
        requires
            old(self).wf(),
            old(self).covers(range),
            old(self)@.len() - (range.end - range.start) + encode_utf8(text@).len() <= MAX_LEN,
        ensures
            r@ == edit::staged(
                old(self)@,
                range.start as int,
                range.end as int,
                encode_utf8(text@),
            ),
            final(self)@ == text::splice(
                old(self)@,
                range.start as int,
                range.end as int,
                encode_utf8(text@),
            ),
            final(self).wf(),
    {
        proof {
            encode_utf8_valid_utf8(text@);
            text::lemma_splice(
                self@,
                range.start as int,
                range.end as int,
                encode_utf8(text@),
            );
        }
        let change: Change = self.stage_replace(range, text);
        self.apply(&change);
        change
    }

    /// Insert `text` at `at`.
    pub fn insert(&mut self, at: usize, text: &str) -> (r: Change)
        requires
            old(self).wf(),
            text::bound(old(self)@, at as int),
            old(self)@.len() + encode_utf8(text@).len() <= MAX_LEN,
        ensures
            r@ == edit::staged(old(self)@, at as int, at as int, encode_utf8(text@)),
            final(self)@ == text::splice(
                old(self)@,
                at as int,
                at as int,
                encode_utf8(text@),
            ),
            final(self).wf(),
    {
        self.replace(at..at, text)
    }

    /// Delete `range`.
    pub fn delete(&mut self, range: Range<usize>) -> (r: Change)
        requires
            old(self).wf(),
            old(self).covers(range),
        ensures
            r@ == edit::staged(
                old(self)@,
                range.start as int,
                range.end as int,
                Seq::<u8>::empty(),
            ),
            final(self)@ == text::splice(
                old(self)@,
                range.start as int,
                range.end as int,
                Seq::<u8>::empty(),
            ),
            final(self).wf(),
    {
        proof {
            lemma_empty_literal();
        }
        self.replace(range, "")
    }
}

/// The empty string has no bytes.
pub proof fn lemma_empty_literal()
    ensures
        ""@ == Seq::<char>::empty(),
        encode_utf8(""@) == Seq::<u8>::empty(),
{
    reveal_strlit("");
    assert(""@ =~= Seq::<char>::empty());
    assert(encode_utf8(""@) =~= Seq::<u8>::empty());
}

/// Where `start` ends up after `text` is inserted there.
fn advance(start: Point, text: &str) -> (r: Point)
    requires
        start.row + encode_utf8(text@).len() <= usize::MAX,
        start.col + encode_utf8(text@).len() <= usize::MAX,
    ensures
        r == edit::advanced(start, encode_utf8(text@)),
{
    let bytes: &[u8] = text.as_bytes();
    let ghost t = bytes@;
    let mut breaks: usize = 0;
    let mut last: usize = 0;
    let mut i: usize = 0;
    while i < bytes.len()
        invariant
            t == bytes@,
            i <= bytes.len(),
            breaks == text::newlines(t, i as int),
            breaks <= i,
            last <= i,
            text::starts_row(t, breaks as int, last as int),
        decreases bytes.len() - i,
    {
        if bytes[i] == 10u8 {
            breaks += 1;
            last = i + 1;
        }
        i += 1;
    }
    proof {
        text::lemma_newlines_mono(t, 0, t.len() as int);
        text::lemma_row_start(t, breaks as int);
        text::lemma_starts_row_unique(
            t,
            breaks as int,
            last as int,
            text::row_start(t, breaks as int),
        );
    }
    if breaks == 0 {
        Point::new(start.row, start.col + bytes.len())
    } else {
        Point::new(start.row + breaks, bytes.len() - last)
    }
}

impl From<&str> for Buffer {
    fn from(text: &str) -> (r: Self)
        ensures
            r@ == encode_utf8(text@),
            encode_utf8(text@).len() <= MAX_LEN ==> r.wf(),
    {
        Self::from_text(text)
    }
}

impl vstd::std_specs::convert::FromSpecImpl<&str> for Buffer {
    /// A rope is not determined by its text, so the result is told by its view.
    open spec fn obeys_from_spec() -> bool {
        false
    }

    open spec fn from_spec(text: &str) -> Buffer {
        choose|b: Buffer| b@ == encode_utf8(text@)
    }
}

} // verus!
