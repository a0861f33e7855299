//! Grapheme stepping, row-local: where the cursor may rest.
//!
//! Columns are grapheme counts, not display widths. vi counts display cells, which
//! differ for tabs and CJK. That difference belongs to the view layer, which owns
//! font and tab-stop knowledge.

use core::ops::Range;
use vstd::prelude::*;
use vstd::utf8::*;

use crate::buffer::Buffer;
use crate::text;
use crate::unicode;

verus! {

/// Where the cursor is allowed to rest.
///
/// The distinction is real vi behaviour: in normal mode the cursor sits *on* a
/// character and cannot pass the last one, but insert mode allows one position
/// beyond it.
#[derive(Debug, Clone, Copy, PartialEq, Eq, Structural)]
pub enum Bound {
    OnChar,
    PastEnd,
}

/// Sentinel sticky column meaning "stay at the end of the row", as `$` does.
pub const STICKY_END: usize = usize::MAX;

/// The grapheme boundaries of row `row`, its end included.
pub open spec fn stops(t: Seq<u8>, row: int) -> Seq<usize> {
    let s = text::row_start(t, row);
    let e = text::content_end(t, row);
    let starts = unicode::grapheme_starts(decode_utf8(t.subrange(s, e)));
    Seq::new(
        starts.len() + 1,
        |i: int|
            if i < starts.len() {
                (s + starts[i]) as usize
            } else {
                e as usize
            },
    )
}

/// What holds of the boundaries of any row: they increase from the start of the
/// row to the end of its content, and each is a character boundary.
pub open spec fn spaced(t: Seq<u8>, row: int) -> bool {
    let v = stops(t, row);
    &&& v.len() > 0
    &&& v[0] == text::row_start(t, row)
    &&& v.last() == text::content_end(t, row)
    &&& forall|i: int, j: int| 0 <= i < j < v.len() ==> v[i] < v[j]
    &&& forall|i: int| 0 <= i < v.len() ==> text::bound(t, #[trigger] v[i] as int)
}

/// The highest column the cursor may occupy among `n` boundaries. In normal mode
/// it is one short of the row end, so the cursor rests on a character; an empty
/// row still has column 0.
pub open spec fn top_col(n: int, bound: Bound) -> int {
    match bound {
        Bound::PastEnd => n - 1,
        Bound::OnChar => if n >= 2 {
            n - 2
        } else {
            0
        },
    }
}

/// The last of the first `n` boundaries at or before `byte`, or the first.
pub open spec fn col_in(v: Seq<usize>, byte: int, n: int) -> int
    decreases n,
{
    if n <= 1 || v[n - 1] <= byte {
        if n <= 0 {
            0
        } else {
            n - 1
        }
    } else {
        col_in(v, byte, n - 1)
    }
}

/// The grapheme column of `byte` within its row.
#[verifier::opaque]
pub open spec fn column(t: Seq<u8>, byte: int) -> int {
    let v = stops(t, text::row_of(t, byte));
    col_in(v, byte, v.len() as int)
}

/// The offset of grapheme column `col` on `row`, or of the last column `bound`
/// allows where there are fewer.
pub open spec fn at_column(t: Seq<u8>, row: int, col: int, bound: Bound) -> int {
    let v = stops(t, row);
    let top = top_col(v.len() as int, bound);
    v[if col < top {
        col
    } else {
        top
    }] as int
}

/// `byte` pulled back to a position the cursor may occupy under `bound`: into the
/// text, to a grapheme boundary of its row, and no further than the last column
/// allowed.
#[verifier::opaque]
pub open spec fn clamped(t: Seq<u8>, byte: int, bound: Bound) -> int {
    let b = if byte < t.len() {
        byte
    } else {
        t.len() as int
    };
    let v = stops(t, text::row_of(t, b));
    v[col_in(v, b, top_col(v.len() as int, bound) + 1)] as int
}

/// Whether the cursor may rest at `byte` under `bound`.
#[verifier::opaque]
pub open spec fn rests(t: Seq<u8>, byte: int, bound: Bound) -> bool {
    let v = stops(t, text::row_of(t, byte));
    &&& 0 <= byte <= t.len()
    &&& text::bound(t, byte)
    &&& exists|i: int|
        0 <= i <= top_col(v.len() as int, bound) && i < v.len() && #[trigger] v[i] == byte
}

/// The byte after one step right.
pub open spec fn right_of(t: Seq<u8>, byte: int, bound: Bound) -> int {
    at_column(t, text::row_of(t, byte), column(t, byte) + 1, bound)
}

/// The byte after one step left.
pub open spec fn left_of(t: Seq<u8>, byte: int, bound: Bound) -> int {
    let col = column(t, byte);
    at_column(
        t,
        text::row_of(t, byte),
        if col > 0 {
            col - 1
        } else {
            0
        },
        bound,
    )
}

/// The byte after `n` steps right.
pub open spec fn steps_right(t: Seq<u8>, byte: int, bound: Bound, n: int) -> int
    decreases n,
{
    if n <= 0 {
        byte
    } else {
        steps_right(t, right_of(t, byte, bound), bound, n - 1)
    }
}

/// The byte after `n` steps left.
pub open spec fn steps_left(t: Seq<u8>, byte: int, bound: Bound, n: int) -> int
    decreases n,
{
    if n <= 0 {
        byte
    } else {
        steps_left(t, left_of(t, byte, bound), bound, n - 1)
    }
}

/// Once a step right goes nowhere, none does.
proof fn lemma_steps_right_stuck(t: Seq<u8>, byte: int, bound: Bound, n: int)
    requires
        right_of(t, byte, bound) == byte,
    ensures
        steps_right(t, byte, bound, n) == byte,
    decreases n,
{
    if n > 0 {
        lemma_steps_right_stuck(t, byte, bound, n - 1);
    }
}

/// Once a step left goes nowhere, none does.
proof fn lemma_steps_left_stuck(t: Seq<u8>, byte: int, bound: Bound, n: int)
    requires
        left_of(t, byte, bound) == byte,
    ensures
        steps_left(t, byte, bound, n) == byte,
    decreases n,
{
    if n > 0 {
        lemma_steps_left_stuck(t, byte, bound, n - 1);
    }
}

/// `col_in` gives a column, the last one at or before the byte.
pub proof fn lemma_col_in(v: Seq<usize>, byte: int, n: int)
    requires
        1 <= n <= v.len(),
    ensures
        0 <= col_in(v, byte, n) < n,
        v[0] <= byte ==> v[col_in(v, byte, n)] <= byte,
        forall|i: int| col_in(v, byte, n) < i < n ==> v[i] > byte,
    decreases n,
{
    if !(n <= 1 || v[n - 1] <= byte) {
        lemma_col_in(v, byte, n - 1);
    }
}

/// A boundary of a row lies on that row, and the cursor may rest there if the
/// column is allowed.
pub(crate) proof fn lemma_stop_rests(t: Seq<u8>, row: int, i: int, bound: Bound)
    requires
        0 <= row < text::rows(t),
        spaced(t, row),
        0 <= i < stops(t, row).len(),
        i <= top_col(stops(t, row).len() as int, bound),
    ensures
        rests(t, stops(t, row)[i] as int, bound),
        text::row_of(t, stops(t, row)[i] as int) == row,
        text::row_start(t, row) <= stops(t, row)[i] <= text::content_end(t, row),
{
    reveal(rests);
    let v = stops(t, row);
    if i > 0 {
        assert(v[0] < v[i]);
    }
    if i < v.len() - 1 {
        assert(v[i] < v[v.len() - 1]);
    }
    text::lemma_row_bytes(t, row, v[i] as int);
}

/// Clamping a position that the cursor may occupy leaves it alone.
pub(crate) proof fn lemma_clamp_keeps(t: Seq<u8>, byte: int, bound: Bound)
    requires
        0 <= byte <= t.len(),
        spaced(t, text::row_of(t, byte)),
        rests(t, byte, bound),
    ensures
        clamped(t, byte, bound) == byte,
{
    reveal(rests);
    reveal(clamped);
    let v = stops(t, text::row_of(t, byte));
    let top = top_col(v.len() as int, bound);
    let i = choose|i: int| 0 <= i <= top && i < v.len() && #[trigger] v[i] == byte;
    lemma_col_in(v, byte, top + 1);
    let c = col_in(v, byte, top + 1);
    if c < i {
        assert(v[c] < v[i]);
        assert(v[i] > byte);
    }
    if i < c {
        assert(v[i] < v[c]);
        assert(v[0] <= byte) by {
            if i > 0 {
                assert(v[0] < v[i]);
            }
        }
    }
}

/// Where the cursor may rest on a character, it may rest past the end too, and it
/// rests in the text.
pub(crate) proof fn lemma_rests(t: Seq<u8>, byte: int, bound: Bound)
    ensures
        rests(t, byte, bound) ==> rests(t, byte, Bound::PastEnd) && text::bound(t, byte),
{
    reveal(rests);
    let v = stops(t, text::row_of(t, byte));
    if rests(t, byte, bound) {
        let i = choose|i: int|
            0 <= i <= top_col(v.len() as int, bound) && i < v.len() && #[trigger] v[i] == byte;
        assert(v[i] == byte);
    }
}

/// The cursor may rest at the start of a row, and past the end of its content.
pub(crate) proof fn lemma_row_ends_rest(t: Seq<u8>, row: int)
    ensures
        0 <= row < text::rows(t) && spaced(t, row) ==> rests(
            t,
            text::row_start(t, row),
            Bound::PastEnd,
        ) && rests(t, text::content_end(t, row), Bound::PastEnd),
{
    if 0 <= row < text::rows(t) && spaced(t, row) {
        lemma_stop_rests(t, row, 0, Bound::PastEnd);
        lemma_stop_rests(t, row, stops(t, row).len() - 1, Bound::PastEnd);
    }
}

/// Byte offsets of every grapheme boundary in `row`, absolute, including the row's
/// end.
pub(crate) fn boundaries(buf: &Buffer, row: usize) -> (r: Vec<usize>)
    requires
        buf.wf(),
        row < text::rows(buf@),
    ensures
        r@ == stops(buf@, row as int),
        spaced(buf@, row as int),
{
    let range: Range<usize> = buf.row_content_range(row);
    let start: usize = range.start;
    let end: usize = range.end;
    let content: String = buf.text_in(range);
    let offsets: Vec<usize> = unicode::grapheme_offsets(content.as_str());
    let ghost t = buf@;
    let ghost c = t.subrange(start as int, end as int);
    proof {
        encode_utf8_decode_utf8(content@);
        assert(content@ == decode_utf8(c));
    }
    let mut out: Vec<usize> = Vec::new();
    let mut i: usize = 0;
    while i < offsets.len()
        invariant
            i <= offsets.len(),
            out.len() == i,
            start <= end <= t.len(),
            t.len() <= usize::MAX,
            c == t.subrange(start as int, end as int),
            unicode::cuts(offsets@, c),
            forall|k: int| 0 <= k < i ==> out[k] == start + offsets[k],
        decreases offsets.len() - i,
    {
        assert(offsets@[i as int] < c.len());
        out.push(start + offsets[i]);
        i += 1;
    }
    out.push(end);
    proof {
        assert(out@ =~= stops(t, row as int));
        assert forall|k: int, j: int| 0 <= k < j < out.len() implies out[k] < out[j] by {
            assert(offsets@[k] < c.len());
            if j < offsets.len() {
                assert(offsets@[k] < offsets@[j]);
            }
        }
        assert forall|k: int| 0 <= k < out.len() implies text::bound(
            t,
            #[trigger] out@[k] as int,
        ) by {
            if k < offsets.len() {
                assert(text::bound(c, offsets@[k] as int));
                text::lemma_slice(t, start as int, end as int, offsets@[k] as int);
            }
        }
        if offsets.len() == 0 {
            assert(c.len() == 0);
        }
    }
    out
}

fn max_col(count: usize, bound: Bound) -> (r: usize)
    requires
        count > 0,
    ensures
        r == top_col(count as int, bound),
        r < count,
{
    match bound {
        Bound::PastEnd => count - 1,
        Bound::OnChar => if count >= 2 {
            count - 2
        } else {
            0
        },
    }
}

fn find_col(v: &Vec<usize>, byte: usize, count: usize) -> (r: usize)
    requires
        1 <= count <= v.len(),
    ensures
        r == col_in(v@, byte as int, count as int),
        r < count,
{
    let mut n: usize = count;
    while n > 1 && v[n - 1] > byte
        invariant
            1 <= n <= count <= v.len(),
            col_in(v@, byte as int, count as int) == col_in(v@, byte as int, n as int),
        decreases n,
    {
        n -= 1;
    }
    n - 1
}

/// The grapheme column of `byte` within its row.
#[must_use]
pub fn grapheme_col(buf: &Buffer, byte: usize) -> (r: usize)
    requires
        buf.wf(),
        byte <= buf@.len(),
    ensures
        r == column(buf@, byte as int),
{
    proof {
        reveal(column);
    }
    let row: usize = buf.byte_to_point(byte).row;
    let v: Vec<usize> = boundaries(buf, row);
    find_col(&v, byte, v.len())
}

/// The byte offset of grapheme column `col` on `row`, clamped.
pub(crate) fn byte_at_col(buf: &Buffer, row: usize, col: usize, bound: Bound) -> (r: usize)
    requires
        buf.wf(),
        row < text::rows(buf@),
    ensures
        r == at_column(buf@, row as int, col as int, bound),
        rests(buf@, r as int, bound),
        text::row_of(buf@, r as int) == row,
{
    let v: Vec<usize> = boundaries(buf, row);
    let top: usize = max_col(v.len(), bound);
    let at: usize = if col < top {
        col
    } else {
        top
    };
    proof {
        lemma_stop_rests(buf@, row as int, at as int, bound);
    }
    v[at]
}

/// Pull `byte` back to a legal cursor position for `bound`, snapping it to a
/// grapheme boundary. This is the single guarantee that callers which compute
/// offsets in bytes cannot leave the cursor mid-character.
#[must_use]
pub fn clamp(buf: &Buffer, byte: usize, bound: Bound) -> (r: usize)
    requires
        buf.wf(),
    ensures
        r == clamped(buf@, byte as int, bound),
        rests(buf@, r as int, bound),
        rests(buf@, byte as int, bound) ==> r == byte,
        r <= byte,
        r <= buf@.len(),
        text::bound(buf@, r as int),
        byte <= buf@.len() ==> spaced(buf@, text::row_of(buf@, byte as int)),
{
    proof {
        reveal(clamped);
        reveal(rests);
    }
    let len: usize = buf.len_bytes();
    let at: usize = if byte < len {
        byte
    } else {
        len
    };
    let row: usize = buf.byte_to_point(at).row;
    let v: Vec<usize> = boundaries(buf, row);
    let top: usize = max_col(v.len(), bound);
    let col: usize = find_col(&v, at, top + 1);
    proof {
        lemma_col_in(v@, at as int, top + 1);
        lemma_stop_rests(buf@, row as int, col as int, bound);
        if rests(buf@, byte as int, bound) {
            lemma_clamp_keeps(buf@, byte as int, bound);
        }
    }
    v[col]
}

/// The grapheme boundary after `byte`, on its row.
pub(crate) fn next_grapheme(buf: &Buffer, byte: usize, bound: Bound) -> (r: usize)
    requires
        buf.wf(),
        byte <= buf@.len(),
    ensures
        r == right_of(buf@, byte as int, bound),
        rests(buf@, r as int, bound),
        text::row_of(buf@, r as int) == text::row_of(buf@, byte as int),
        r <= buf@.len(),
{
    proof {
        reveal(column);
        reveal(rests);
    }
    let row: usize = buf.byte_to_point(byte).row;
    let v: Vec<usize> = boundaries(buf, row);
    let col: usize = find_col(&v, byte, v.len());
    byte_at_col(buf, row, col + 1, bound)
}

/// The grapheme boundary before `byte`, on its row.
pub(crate) fn prev_grapheme(buf: &Buffer, byte: usize, bound: Bound) -> (r: usize)
    requires
        buf.wf(),
        byte <= buf@.len(),
    ensures
        r == left_of(buf@, byte as int, bound),
        rests(buf@, r as int, bound),
        text::row_of(buf@, r as int) == text::row_of(buf@, byte as int),
        r <= byte,
{
    proof {
        reveal(column);
    }
    let row: usize = buf.byte_to_point(byte).row;
    let v: Vec<usize> = boundaries(buf, row);
    let col: usize = find_col(&v, byte, v.len());
    proof {
        lemma_col_in(v@, byte as int, v.len() as int);
        text::lemma_row_of(buf@, byte as int);
        let back = if col > 0 {
            col - 1
        } else {
            0
        };
        let top = top_col(v.len() as int, bound);
        let at = if back < top {
            back
        } else {
            top
        };
        if at < col {
            assert(v@[at] < v@[col as int]);
        }
    }
    byte_at_col(buf, row, if col > 0 {
        col - 1
    } else {
        0
    }, bound)
}

/// The byte after `times` steps right.
pub(crate) fn walk_right(buf: &Buffer, from: usize, bound: Bound, times: usize) -> (r: usize)
    requires
        buf.wf(),
        from <= buf@.len(),
    ensures
        r == steps_right(buf@, from as int, bound, times as int),
        r <= buf@.len(),
        times > 0 ==> rests(buf@, r as int, bound) && text::row_of(buf@, r as int)
            == text::row_of(buf@, from as int),
{
    let mut pos: usize = from;
    let mut left: usize = times;
    while left > 0
        invariant
            buf.wf(),
            pos <= buf@.len(),
            left <= times,
            text::row_of(buf@, pos as int) == text::row_of(buf@, from as int),
            left < times ==> rests(buf@, pos as int, bound),
            steps_right(buf@, from as int, bound, times as int) == steps_right(
                buf@,
                pos as int,
                bound,
                left as int,
            ),
        decreases left,
    {
        let next: usize = next_grapheme(buf, pos, bound);
        if next == pos {
            proof {
                lemma_steps_right_stuck(buf@, pos as int, bound, left as int);
            }
            return pos;
        }
        pos = next;
        left -= 1;
    }
    pos
}

/// The byte after `times` steps left.
pub(crate) fn walk_left(buf: &Buffer, from: usize, bound: Bound, times: usize) -> (r: usize)
    requires
        buf.wf(),
        from <= buf@.len(),
    ensures
        r == steps_left(buf@, from as int, bound, times as int),
        r <= from,
        times > 0 ==> rests(buf@, r as int, bound) && text::row_of(buf@, r as int)
            == text::row_of(buf@, from as int),
{
    let mut pos: usize = from;
    let mut left: usize = times;
    while left > 0
        invariant
            buf.wf(),
            pos <= from <= buf@.len(),
            left <= times,
            text::row_of(buf@, pos as int) == text::row_of(buf@, from as int),
            left < times ==> rests(buf@, pos as int, bound),
            steps_left(buf@, from as int, bound, times as int) == steps_left(
                buf@,
                pos as int,
                bound,
                left as int,
            ),
        decreases left,
    {
        let next: usize = prev_grapheme(buf, pos, bound);
        if next == pos {
            proof {
                lemma_steps_left_stuck(buf@, pos as int, bound, left as int);
            }
            return pos;
        }
        pos = next;
        left -= 1;
    }
    pos
}

} // verus!
