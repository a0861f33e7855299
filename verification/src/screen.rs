//! What a terminal shows of an editor.
//!
//! The core refuses to own a display: expanding tabs, measuring width, numbering
//! rows and deciding which of them are visible are the host's work, and this is it.

use core::ops::Range;

use vstd::prelude::*;
use vstd::utf8::*;

use crate::command::Scroll;
use crate::editor::Editor;
use crate::pending;
use crate::state::EditorState;
use crate::strings;
use crate::strings::to_decimal;
use crate::text;
use crate::unicode;

verus! {

/// Tab width. Purely a view decision: the buffer stores a single `\t` byte.
///
/// The core is handed this same number as the tab width of its indentation, because
/// `<<` on a tab-indented row has to remove what the screen shows.
pub const TABSTOP: usize = 8;

// ---------------------------------------------------------------------------
// widths
// ---------------------------------------------------------------------------

/// `n` spaces.
pub open spec fn spaces(n: int) -> Seq<char> {
    Seq::new(
        if n > 0 {
            n as nat
        } else {
            0
        },
        |i: int| ' ',
    )
}

/// How many columns `c` takes; none where its width is not known.
pub open spec fn char_columns(c: char) -> int {
    match unicode::columns_of(c) {
        Some(n) => n as int,
        None => 0,
    }
}

/// The first `n` characters of `s`, with tabs expanded, from the display column `col`
/// on; and the column after them.
pub open spec fn expansion(s: Seq<char>, col: int, n: int) -> (Seq<char>, int)
    decreases n,
{
    if n <= 0 {
        (Seq::empty(), col)
    } else {
        let (before, at) = expansion(s, col, n - 1);
        let c = s[n - 1];
        if c == '\t' {
            let width = TABSTOP - at % TABSTOP as int;
            (before + spaces(width), pending::saturated(at + width) as int)
        } else {
            (before.push(c), pending::saturated(at + char_columns(c)) as int)
        }
    }
}

/// `s` with tabs expanded, from the display column `col` on.
pub open spec fn expanded(s: Seq<char>, col: int) -> Seq<char> {
    expansion(s, col, s.len() as int).0
}

/// The display column after `s`, from the column `col` on.
pub open spec fn column_after(s: Seq<char>, col: int) -> int {
    expansion(s, col, s.len() as int).1
}

fn push_spaces(out: &mut String, n: usize)
    ensures
        final(out)@ == old(out)@ + spaces(n as int),
{
    let mut i: usize = 0;
    assert(out@ =~= old(out)@ + spaces(0));
    while i < n
        invariant
            i <= n,
            out@ == old(out)@ + spaces(i as int),
        decreases n - i,
    {
        out.push(' ');
        i += 1;
        assert(out@ =~= old(out)@ + spaces(i as int));
    }
}

/// Expand tabs, continuing from display column `col`; returns the text and the column
/// after it.
pub fn expand_from(text: &str, col: usize) -> (r: (String, usize))
    ensures
        r.0@ == expanded(text@, col as int),
        r.1 == column_after(text@, col as int),
{
    let chars: Vec<char> = strings::chars_of(text);
    let mut out = String::new();
    let mut at: usize = col;
    let mut i: usize = 0;
    assert(out@ =~= Seq::empty());
    while i < chars.len()
        invariant
            i <= chars.len(),
            chars@ == text@,
            (out@, at as int) == expansion(text@, col as int, i as int),
        decreases chars.len() - i,
    {
        let c: char = chars[i];
        if c == '\t' {
            let width: usize = TABSTOP - at % TABSTOP;
            push_spaces(&mut out, width);
            at = at.saturating_add(width);
        } else {
            out.push(c);
            let width: usize = match unicode::columns(c) {
                Some(n) => n,
                None => 0,
            };
            at = at.saturating_add(width);
        }
        i += 1;
    }
    (out, at)
}

/// How many digits `n` has.
pub fn decimals(n: usize) -> (r: usize)
    ensures
        r == strings::decimal(n as int).len(),
{
    let mut rest: usize = n;
    let mut count: usize = 1;
    while rest >= 10
        invariant
            1 <= count,
            count + rest <= n + 1,
            strings::decimal(n as int).len() == strings::decimal(rest as int).len() + count - 1,
        decreases rest,
    {
        rest = rest / 10;
        count += 1;
    }
    count
}

/// `s` with its line feeds shown.
pub open spec fn flat(s: Seq<char>) -> Seq<char> {
    Seq::new(
        s.len(),
        |i: int|
            if s[i] == '\n' {
                '⏎'
            } else {
                s[i]
            },
    )
}

/// `s` on one line, cut short after `max` characters.
pub open spec fn shortened(s: Seq<char>, max: int) -> Seq<char> {
    if s.len() <= max {
        flat(s)
    } else {
        flat(s).take(max).push('…')
    }
}

/// `text` on one line, cut short after `max` characters.
pub fn ellipsis(text: &str, max: usize) -> (r: String)
    ensures
        r@ == shortened(text@, max as int),
{
    let chars: Vec<char> = strings::chars_of(text);
    let end: usize = if chars.len() <= max {
        chars.len()
    } else {
        max
    };
    let mut out = String::new();
    let mut i: usize = 0;
    assert(out@ =~= flat(text@).take(0));
    while i < end
        invariant
            i <= end <= chars.len(),
            chars@ == text@,
            out@ == flat(text@).take(i as int),
        decreases end - i,
    {
        let c: char = chars[i];
        out.push(
            if c == '\n' {
                '⏎'
            } else {
                c
            },
        );
        i += 1;
        assert(out@ =~= flat(text@).take(i as int));
    }
    if chars.len() > max {
        out.push('…');
    } else {
        assert(flat(text@).take(end as int) =~= flat(text@));
    }
    out
}

/// `n` as a number of terminal cells, which are counted in sixteen bits.
pub fn cells(n: usize) -> (r: u16)
    ensures
        r == (if n <= u16::MAX {
            n as int
        } else {
            u16::MAX as int
        }),
{
    if n <= 65535 {
        n as u16
    } else {
        65535
    }
}

// ---------------------------------------------------------------------------
// the window
// ---------------------------------------------------------------------------

/// The larger of two numbers.
pub open spec fn larger(a: int, b: int) -> int {
    if a < b {
        b
    } else {
        a
    }
}

/// The smaller of two numbers.
pub open spec fn smaller(a: int, b: int) -> int {
    if a < b {
        a
    } else {
        b
    }
}

/// The first visible row after a scroll, in a window `height` rows high whose first
/// row is `top`, over `rows` rows with the cursor on `row`. A page keeps two rows in
/// view, as the core does when it moves the cursor by one.
pub open spec fn scrolled_top(top: int, height: int, rows: int, row: int, scroll: Scroll) -> int {
    let high = larger(height, 1);
    let page = larger(high - 2, 1);
    let last = larger(rows - 1, 0);
    match scroll {
        Scroll::HalfPageDown => smaller(top + high / 2, last),
        Scroll::HalfPageUp => larger(top - high / 2, 0),
        Scroll::PageDown => smaller(top + page, last),
        Scroll::PageUp => larger(top - page, 0),
        Scroll::Center => larger(row - high / 2, 0),
        Scroll::Top => row,
        Scroll::Bottom => larger(row - (high - 1), 0),
    }
}

/// The first visible row after a scroll.
pub fn scroll_top(top: usize, height: usize, rows: usize, row: usize, scroll: Scroll) -> (r: usize)
    ensures
        r == scrolled_top(top as int, height as int, rows as int, row as int, scroll),
{
    let high: usize = if height == 0 {
        1
    } else {
        height
    };
    let page: usize = if high <= 3 {
        1
    } else {
        high - 2
    };
    let last: usize = rows.saturating_sub(1);
    match scroll {
        Scroll::HalfPageDown => {
            let next: usize = top.saturating_add(high / 2);
            if next < last {
                next
            } else {
                last
            }
        },
        Scroll::HalfPageUp => top.saturating_sub(high / 2),
        Scroll::PageDown => {
            let next: usize = top.saturating_add(page);
            if next < last {
                next
            } else {
                last
            }
        },
        Scroll::PageUp => top.saturating_sub(page),
        Scroll::Center => row.saturating_sub(high / 2),
        Scroll::Top => row,
        Scroll::Bottom => row.saturating_sub(high - 1),
    }
}

/// The first visible row once the cursor, on `row`, has been brought into view: the
/// window moves no further than it must.
pub open spec fn followed_top(top: int, height: int, row: int) -> int {
    let high = larger(height, 1);
    if row < top {
        row
    } else if row >= top + high {
        row + 1 - high
    } else {
        top
    }
}

/// The first visible row once the cursor, on `row`, has been brought into view.
pub fn follow_top(top: usize, height: usize, row: usize) -> (r: usize)
    ensures
        r == followed_top(top as int, height as int, row as int),
{
    let high: usize = if height == 0 {
        1
    } else {
        height
    };
    if row < top {
        row
    } else if row - top >= high {
        row - (high - 1)
    } else {
        top
    }
}

/// A window that follows the cursor shows it.
pub proof fn following_shows_the_cursor(top: int, height: int, row: int)
    requires
        1 <= height,
    ensures
        followed_top(top, height, row) <= row < followed_top(top, height, row) + height,
        top <= row < top + height ==> followed_top(top, height, row) == top,
{
}

// ---------------------------------------------------------------------------
// rows
// ---------------------------------------------------------------------------

/// A piece of a row that is shown in one style.
#[derive(Debug)]
pub struct Part {
    pub text: String,
    pub selected: bool,
}

/// A row as it is shown: its number in the gutter, and its text.
#[derive(Debug)]
pub struct Row {
    pub label: String,
    pub parts: Vec<Part>,
}

/// The parts that `v` holds.
pub open spec fn part_views(v: Seq<Part>) -> Seq<(Seq<char>, bool)> {
    Seq::new(v.len(), |i: int| (v[i].text@, v[i].selected))
}

impl View for Row {
    type V = (Seq<char>, Seq<(Seq<char>, bool)>);

    open spec fn view(&self) -> (Seq<char>, Seq<(Seq<char>, bool)>) {
        (self.label@, part_views(self.parts@))
    }
}

/// The rows that `v` holds.
pub open spec fn row_views(v: Seq<Row>) -> Seq<(Seq<char>, Seq<(Seq<char>, bool)>)> {
    Seq::new(v.len(), |i: int| v[i]@)
}

/// The characters in the bytes `a..b` of `t`.
pub open spec fn chars_in(t: Seq<u8>, a: int, b: int) -> Seq<char> {
    decode_utf8(t.subrange(a, b))
}

/// `parts`, and after them `s`, expanded from the column `col` on; nothing where that
/// is empty.
pub open spec fn with_part(
    parts: Seq<(Seq<char>, bool)>,
    s: Seq<char>,
    col: int,
    selected: bool,
) -> Seq<(Seq<char>, bool)> {
    if expanded(s, col).len() == 0 {
        parts
    } else {
        parts.push((expanded(s, col), selected))
    }
}

/// The bytes of a selection that lie in `a..b`.
pub open spec fn cut(selection: Option<(int, int)>, a: int, b: int) -> Option<(int, int)> {
    match selection {
        Some((from, to)) => {
            let start = larger(from, a);
            let end = smaller(to, b);
            if start < end {
                Some((start, end))
            } else {
                None
            }
        },
        None => None,
    }
}

/// The parts of the row of `t` whose content is `a..b`. The row is split where the
/// selection begins and ends, and each piece is expanded from the column the one
/// before it ended at, so that tab stops stay where they are.
pub open spec fn row_parts(t: Seq<u8>, a: int, b: int, selection: Option<(int, int)>) -> Seq<
    (Seq<char>, bool),
> {
    match cut(selection, a, b) {
        None => with_part(Seq::empty(), chars_in(t, a, b), 0, false),
        Some((start, end)) => {
            let before = chars_in(t, a, start);
            let within = chars_in(t, start, end);
            let after = chars_in(t, end, b);
            let col = column_after(before, 0);
            with_part(
                with_part(with_part(Seq::empty(), before, 0, false), within, col, true),
                after,
                column_after(within, col),
                false,
            )
        },
    }
}

/// A row's number, from one on, to the right of a gutter `width` columns wide.
pub open spec fn row_label(row: int, width: int) -> Seq<char> {
    let number = strings::decimal(row + 1);
    spaces(width - number.len()) + number + " "@
}

/// How row `row` is shown.
pub open spec fn row_shown(s: EditorState, row: int, gutter: int) -> (
    Seq<char>,
    Seq<(Seq<char>, bool)>,
) {
    (
        row_label(row, gutter),
        row_parts(
            s.text,
            text::row_start(s.text, row),
            text::content_end(s.text, row),
            s.selection(),
        ),
    )
}

/// The rows from `top` to before `end`, as they are shown.
pub open spec fn rows_shown(s: EditorState, top: int, end: int, gutter: int) -> Seq<
    (Seq<char>, Seq<(Seq<char>, bool)>),
> {
    Seq::new(
        if top < end {
            (end - top) as nat
        } else {
            0
        },
        |i: int| row_shown(s, top + i, gutter),
    )
}

fn push_part(parts: &mut Vec<Part>, text: &str, col: usize, selected: bool) -> (r: usize)
    ensures
        part_views(final(parts)@) == with_part(
            part_views(old(parts)@),
            text@,
            col as int,
            selected,
        ),
        r == column_after(text@, col as int),
{
    let (out, next) = expand_from(text, col);
    if strings::byte_len(out.as_str()) > 0 {
        proof {
            assert(out@.len() > 0) by {
                if out@.len() == 0 {
                    assert(out@ =~= Seq::<char>::empty());
                }
            }
            let part = Part { text: out, selected };
            assert(part_views(parts@.push(part)) =~= part_views(parts@).push((out@, selected)));
        }
        parts.push(Part { text: out, selected });
    } else {
        proof {
            encode_utf8_decode_utf8(out@);
            assert(encode_utf8(out@) =~= Seq::<u8>::empty());
        }
    }
    next
}

fn label_row(row: usize, width: usize) -> (r: String)
    requires
        row < usize::MAX,
    ensures
        r@ == row_label(row as int, width as int),
{
    let number: String = to_decimal(row + 1);
    let digits: usize = decimals(row + 1);
    let mut out = String::new();
    push_spaces(&mut out, width.saturating_sub(digits));
    proof {
        assert(Seq::<char>::empty() + spaces(width - digits) =~= spaces(width - digits));
        assert(spaces(0) =~= spaces(width - digits) || digits <= width);
    }
    out.push_str(number.as_str());
    out.push_str(" ");
    out
}

fn show_row(editor: &Editor, row: usize, gutter: usize) -> (r: Row)
    requires
        editor.wf(),
        row < text::rows(editor@.text),
    ensures
        r@ == row_shown(editor@, row as int, gutter as int),
{
    let buf = editor.buffer();
    proof {
        text::lemma_row_of(editor@.text, 0);
    }
    let rows: usize = buf.len_rows();
    let range: Range<usize> = buf.row_content_range(row);
    let (a, b): (usize, usize) = (range.start, range.end);
    let label: String = label_row(row, gutter);
    let mut parts: Vec<Part> = Vec::new();
    assert(part_views(parts@) =~= Seq::empty());
    let (start, end): (usize, usize) = match editor.selection() {
        Some(selection) => (
            if selection.start < a {
                a
            } else {
                selection.start
            },
            if selection.end < b {
                selection.end
            } else {
                b
            },
        ),
        None => (a, a),
    };
    if start < end {
        let before: String = buf.text_in(a..start);
        let within: String = buf.text_in(start..end);
        let after: String = buf.text_in(end..b);
        proof {
            encode_utf8_decode_utf8(before@);
            encode_utf8_decode_utf8(within@);
            encode_utf8_decode_utf8(after@);
        }
        let col: usize = push_part(&mut parts, before.as_str(), 0, false);
        let next: usize = push_part(&mut parts, within.as_str(), col, true);
        let _ = push_part(&mut parts, after.as_str(), next, false);
    } else {
        let text: String = buf.text_in(range);
        proof {
            encode_utf8_decode_utf8(text@);
        }
        let _ = push_part(&mut parts, text.as_str(), 0, false);
    }
    Row { label, parts }
}

/// The rows that a window shows, which is `height` rows high and whose first row is
/// `top`.
pub fn buffer_lines(editor: &Editor, top: usize, height: usize, gutter: usize) -> (r: Vec<Row>)
    requires
        editor.wf(),
    ensures
        row_views(r@) == rows_shown(
            editor@,
            top as int,
            smaller(top + height, text::rows(editor@.text)),
            gutter as int,
        ),
{
    let rows: usize = editor.buffer().len_rows();
    let past: usize = top.saturating_add(height);
    let end: usize = if past < rows {
        past
    } else {
        rows
    };
    let mut out: Vec<Row> = Vec::new();
    let mut row: usize = top;
    assert(row_views(out@) =~= rows_shown(editor@, top as int, top as int, gutter as int));
    while row < end
        invariant
            editor.wf(),
            top <= row,
            row <= end || row == top,
            end <= text::rows(editor@.text),
            row_views(out@) == rows_shown(editor@, top as int, row as int, gutter as int),
        decreases end - row,
    {
        let shown: Row = show_row(editor, row, gutter);
        proof {
            assert(row_views(out@.push(shown)) =~= row_views(out@).push(shown@));
            assert(rows_shown(editor@, top as int, row as int, gutter as int).push(shown@)
                =~= rows_shown(editor@, top as int, row + 1, gutter as int));
        }
        out.push(shown);
        row += 1;
    }
    proof {
        assert(rows_shown(editor@, top as int, row as int, gutter as int) =~= rows_shown(
            editor@,
            top as int,
            end as int,
            gutter as int,
        ));
    }
    out
}

// ---------------------------------------------------------------------------
// the cursor
// ---------------------------------------------------------------------------

/// The cursor's column in display cells. This is where wide characters and tabs are
/// accounted for.
pub open spec fn display_column(s: EditorState) -> int {
    let row = text::row_of(s.text, s.cursor);
    let a = text::row_start(s.text, row);
    let b = text::content_end(s.text, row);
    column_after(chars_in(s.text, a, smaller(s.cursor, b)), 0)
}

/// The cursor's column in display cells.
pub fn cursor_display_col(editor: &Editor) -> (r: usize)
    requires
        editor.wf(),
    ensures
        r == display_column(editor@),
{
    proof {
        text::lemma_row_of(editor@.text, editor@.cursor);
    }
    let point = editor.cursor_point();
    let buf = editor.buffer();
    let rows: usize = buf.len_rows();
    let range: Range<usize> = buf.row_content_range(point.row);
    let cursor: usize = editor.cursor();
    let end: usize = if cursor < range.end {
        cursor
    } else {
        range.end
    };
    let upto: String = buf.text_in(range.start..end);
    proof {
        encode_utf8_decode_utf8(upto@);
    }
    expand_from(upto.as_str(), 0).1
}

} // verus!
