//! Resolving motions to buffer positions.
//!
//! Pure functions over a [`Buffer`]. No cursor state, no modes: the reducer owns
//! those and passes in what it has.
//!
//! # Two granularities, deliberately
//!
//! - **Graphemes** for `h`, `l`, `x`, `r`: every such motion is row-local in vi;
//!   see [`crate::grapheme`].
//! - **Characters** for word motions and delimiter scanning, which cross rows; see
//!   [`crate::scan`].

use core::ops::{Range, RangeInclusive};
use vstd::prelude::*;
use vstd::utf8::*;

use crate::buffer::Buffer;
use crate::command::{Find, Motion};
use crate::grapheme;
use crate::grapheme::Bound;
use crate::host::Viewport;
use crate::scan;
use crate::search;
use crate::text;

verus! {

// ---------------------------------------------------------------------------
// spans
// ---------------------------------------------------------------------------

/// `RangeInclusive::start`: the lower bound, as long as the range has not been
/// iterated over.
pub assume_specification<Idx>[ RangeInclusive::<Idx>::start ](range: &RangeInclusive<Idx>) -> (r:
    &Idx)
    ensures
        !range@.exhausted ==> *r == range@.start,
;

/// `RangeInclusive::end`: the upper bound, as long as the range has not been
/// iterated over.
pub assume_specification<Idx>[ RangeInclusive::<Idx>::end ](range: &RangeInclusive<Idx>) -> (r:
    &Idx)
    ensures
        !range@.exhausted ==> *r == range@.end,
;

/// A resolved region, expressed in the granularity that produced it.
///
/// A linewise region names **rows**, not bytes. The byte range a row range
/// corresponds to depends on what is being done to it (deleting a row takes a row
/// terminator with it where rewriting the row's content must not), so the
/// conversion happens per operator, at the point of edit, and never in reverse.
#[derive(Debug, PartialEq, Eq)]
pub enum Span {
    /// A half-open byte range on UTF-8 boundaries.
    Chars(Range<usize>),
    /// An inclusive range of rows that exist in the buffer.
    Lines(RangeInclusive<usize>),
}

/// What a [`Span`] covers.
pub enum Extent {
    Chars { start: int, end: int },
    Lines { first: int, last: int },
}

impl View for Span {
    type V = Extent;

    open spec fn view(&self) -> Extent {
        match *self {
            Span::Chars(range) => Extent::Chars {
                start: range.start as int,
                end: range.end as int,
            },
            Span::Lines(rows) => Extent::Lines {
                first: rows@.start as int,
                last: rows@.end as int,
            },
        }
    }
}

/// The bytes that deleting rows `first..=last` removes: the rows with the terminator
/// of the last, or, where the last row of the text is among them and so has none, with
/// the line feed before them instead, so that no blank row is left behind.
pub open spec fn rows_deleted(t: Seq<u8>, first: int, last: int) -> (int, int) {
    let l = if last < text::rows(t) {
        last
    } else {
        text::rows(t) - 1
    };
    if l + 1 < text::rows(t) {
        (text::row_start(t, first), text::row_start(t, l + 1))
    } else if first > 0 {
        (text::row_end(t, first - 1) - 1, t.len() as int)
    } else {
        (text::row_start(t, first), t.len() as int)
    }
}

impl Extent {
    /// Whether the extent lies in `t`: a range between character boundaries, or
    /// rows that exist.
    pub open spec fn lies_in(self, t: Seq<u8>) -> bool {
        match self {
            Extent::Chars { start, end } => start <= end && text::bound(t, start)
                && text::bound(t, end),
            Extent::Lines { first, last } => 0 <= first <= last < text::rows(t),
        }
    }

    /// The bytes an operator rewrites in place: from the first row's start to the
    /// last row's content end.
    pub open spec fn content(self, t: Seq<u8>) -> (int, int) {
        match self {
            Extent::Chars { start, end } => (start, end),
            Extent::Lines { first, last } => (
                text::row_start(t, first),
                text::content_end(t, last),
            ),
        }
    }

    /// The bytes a delete removes.
    pub open spec fn deleted(self, t: Seq<u8>) -> (int, int) {
        match self {
            Extent::Chars { start, end } => (start, end),
            Extent::Lines { first, last } => rows_deleted(t, first, last),
        }
    }

    /// Where the caret belongs once the operator is done.
    pub open spec fn home(self, t: Seq<u8>) -> int {
        match self {
            Extent::Chars { start, .. } => start,
            Extent::Lines { first, .. } => text::row_start(t, first),
        }
    }
}

/// Content and deleted bytes of an extent lie between character boundaries.
pub proof fn lemma_extent(e: Extent, t: Seq<u8>)
    requires
        valid_utf8(t),
        e.lies_in(t),
    ensures
        e.content(t).0 <= e.content(t).1,
        text::bound(t, e.content(t).0),
        text::bound(t, e.content(t).1),
        e.deleted(t).0 <= e.deleted(t).1,
        text::bound(t, e.deleted(t).0),
        text::bound(t, e.deleted(t).1),
        text::bound(t, e.home(t)),
        e.home(t) <= t.len(),
{
    if let Extent::Lines { first, last } = e {
        text::lemma_rows(t, first);
        text::lemma_rows(t, last);
        text::lemma_row_bounds(t, first);
        text::lemma_row_bounds(t, last);
        if first < last {
            text::lemma_row_start_mono(t, first, last);
        }
        if first > 0 {
            text::lemma_rows(t, first - 1);
            text::lemma_ascii(t, text::row_end(t, first - 1) - 1);
        }
    }
}

/// Whether the span's rows can still be read: nothing has iterated over them.
pub open spec fn intact(span: Span) -> bool {
    span matches Span::Lines(rows) ==> !rows@.exhausted
}

impl Clone for Span {
    fn clone(&self) -> (r: Self)
        ensures
            intact(*self) ==> intact(r) && r@ == self@,
    {
        match self {
            Span::Chars(range) => Span::Chars(range.start..range.end),
            Span::Lines(rows) => Span::Lines(RangeInclusive::new(*rows.start(), *rows.end())),
        }
    }
}

impl Span {
    /// A span of rows `first..=last`.
    #[must_use]
    pub fn lines(first: usize, last: usize) -> (r: Self)
        ensures
            r@ == (Extent::Lines { first: first as int, last: last as int }),
            intact(r),
    {
        Span::Lines(RangeInclusive::new(first, last))
    }

    /// Whether the span names rows.
    #[must_use]
    pub fn is_linewise(&self) -> (r: bool)
        ensures
            r == (self@ is Lines),
    {
        matches!(self, Self::Lines(_))
    }

    /// The bytes an operator rewrites **in place**, leaving row structure alone:
    /// from the first row's start to the last row's content end, excluding its
    /// terminator. What a linewise change or recase acts on.
    #[must_use]
    pub fn content_range(&self, buf: &Buffer) -> (r: Range<usize>)
        requires
            buf.wf(),
            intact(*self),
            self@ matches Extent::Lines { first, last } ==> first <= text::rows(buf@) && last
                <= text::rows(buf@),
        ensures
            r.start == self@.content(buf@).0,
            r.end == self@.content(buf@).1,
    {
        match self {
            Self::Chars(range) => range.start..range.end,
            Self::Lines(rows) => buf.row_range(*rows.start()).start..buf.row_content_range(
                *rows.end(),
            ).end,
        }
    }

    /// The bytes a delete removes, including a row terminator so that `dd` takes
    /// the row break with it; see [`row_span`] for which one.
    #[must_use]
    pub fn delete_range(&self, buf: &Buffer) -> (r: Range<usize>)
        requires
            buf.wf(),
            intact(*self),
            self@ matches Extent::Lines { first, .. } ==> first < text::rows(buf@) || (first
                == text::rows(buf@) && buf@.len() > 0),
        ensures
            r.start == self@.deleted(buf@).0,
            r.end == self@.deleted(buf@).1,
    {
        match self {
            Self::Chars(range) => range.start..range.end,
            Self::Lines(rows) => row_span(buf, *rows.start(), *rows.end()),
        }
    }

    /// Where the caret belongs once the operator is done.
    #[must_use]
    pub fn home(&self, buf: &Buffer) -> (r: usize)
        requires
            buf.wf(),
            intact(*self),
            self@ matches Extent::Lines { first, .. } ==> first <= text::rows(buf@),
        ensures
            r == self@.home(buf@),
    {
        match self {
            Self::Chars(range) => range.start,
            Self::Lines(rows) => buf.row_content_range(*rows.start()).start,
        }
    }
}

/// Byte range covering rows `first..=last`, including the final row's newline when
/// there is one. This is what a linewise operator deletes.
#[must_use]
pub fn row_span(buf: &Buffer, first: usize, last: usize) -> (r: Range<usize>)
    requires
        buf.wf(),
        first < text::rows(buf@) || (first == text::rows(buf@) && buf@.len() > 0),
    ensures
        r.start == rows_deleted(buf@, first as int, last as int).0,
        r.end == rows_deleted(buf@, first as int, last as int).1,
{
    let rows: usize = buf.len_rows();
    let last: usize = if last < rows {
        last
    } else {
        rows - 1
    };
    let start: usize = buf.row_range(first).start;
    let end: usize = buf.row_range(last).end;
    // No trailing newline on the final row: take the preceding one instead, so
    // `dd` on the last row does not leave a blank. A row that ends where the text
    // does but has an empty row after it keeps to its own newline.
    if last == rows - 1 && first > 0 {
        proof {
            text::lemma_rows(buf@, first - 1);
        }
        return (buf.row_range(first - 1).end - 1)..end;
    }
    start..end
}

// ---------------------------------------------------------------------------
// repeated word motions
// ---------------------------------------------------------------------------

/// `w`, `b` and `e`.
#[derive(Debug, Clone, Copy, PartialEq, Eq, Structural)]
pub enum WordMove {
    Forward,
    Backward,
    End,
}

/// One word motion from `from`.
pub open spec fn word_step(t: Seq<u8>, from: int, kind: WordMove, big: bool) -> int {
    match kind {
        WordMove::Forward => scan::word_forward(t, from, big),
        WordMove::Backward => scan::word_backward(t, from, big),
        WordMove::End => scan::word_end(t, from, big),
    }
}

/// `n` word motions from `from`.
pub open spec fn word_steps(t: Seq<u8>, from: int, kind: WordMove, big: bool, n: int) -> int
    decreases n,
{
    if n <= 0 {
        from
    } else {
        word_steps(t, word_step(t, from, kind, big), kind, big, n - 1)
    }
}

proof fn lemma_word_steps_stuck(t: Seq<u8>, from: int, kind: WordMove, big: bool, n: int)
    requires
        word_step(t, from, kind, big) == from,
    ensures
        word_steps(t, from, kind, big, n) == from,
    decreases n,
{
    if n > 0 {
        lemma_word_steps_stuck(t, from, kind, big, n - 1);
    }
}

fn walk_words(buf: &Buffer, from: usize, kind: WordMove, big: bool, times: usize) -> (r: usize)
    requires
        buf.wf(),
        text::bound(buf@, from as int),
    ensures
        r == word_steps(buf@, from as int, kind, big, times as int),
        r <= buf@.len(),
{
    let mut pos: usize = from;
    let mut left: usize = times;
    while left > 0
        invariant
            buf.wf(),
            text::bound(buf@, pos as int),
            word_steps(buf@, from as int, kind, big, times as int) == word_steps(
                buf@,
                pos as int,
                kind,
                big,
                left as int,
            ),
        decreases left,
    {
        let next: usize = match kind {
            WordMove::Forward => scan::next_word(buf, pos, big),
            WordMove::Backward => scan::previous_word(buf, pos, big),
            WordMove::End => scan::end_of_word(buf, pos, big),
        };
        if next == pos {
            proof {
                lemma_word_steps_stuck(buf@, pos as int, kind, big, left as int);
            }
            return pos;
        }
        pos = next;
        left -= 1;
    }
    pos
}

// ---------------------------------------------------------------------------
// find
// ---------------------------------------------------------------------------

/// Where a find looks from. Repeating a `t`/`T` looks from one character further
/// along, since it parks one character short of its target and would find that
/// same target again.
pub open spec fn find_origin(t: Seq<u8>, from: int, find: Find, skip_adjacent: bool) -> int {
    let row = text::row_of(t, from);
    let s = text::row_start(t, row);
    let e = text::content_end(t, row);
    if !(skip_adjacent && find.till && text::bound(t, from)) {
        from
    } else if find.backward {
        if s < from <= e {
            text::prev(t, from)
        } else {
            from
        }
    } else {
        if from < e {
            text::next(t, from)
        } else {
            from
        }
    }
}

/// The `count`th `find.target` on the row of `from`, or the position short of it
/// for a `t`/`T`.
pub open spec fn found_in_row(
    t: Seq<u8>,
    from: int,
    find: Find,
    count: int,
    skip_adjacent: bool,
) -> Option<int> {
    let row = text::row_of(t, from);
    let s = text::row_start(t, row);
    let e = text::content_end(t, row);
    let origin = find_origin(t, from, find, skip_adjacent);
    let hit = if find.backward {
        scan::nth_before(t, e, s, origin, find.target, count)
    } else {
        scan::nth_after(t, s, e, origin, find.target, count)
    };
    match hit {
        None => None,
        Some(at) => Some(
            if !find.till {
                at
            } else if find.backward {
                text::next(t, at)
            } else {
                text::prev(t, at)
            },
        ),
    }
}

/// Whether `r` holds the offset `p`.
pub open spec fn same(r: Option<usize>, p: Option<int>) -> bool {
    match (r, p) {
        (None, None) => true,
        (Some(a), Some(b)) => a == b,
        _ => false,
    }
}

/// Find `find.target` within `from`'s row.
///
/// `skip_adjacent` is for `;` and `,`. A `t`/`T` parks one character short of its
/// target, so repeating it re-finds that same target and resolves to the position
/// the cursor is already on. Stepping the origin one character along excludes
/// exactly that target and nothing else, since a target one step away is precisely
/// the one whose till-position is the cursor.
fn find_in_row(
    buf: &Buffer,
    from: usize,
    find: Find,
    count: usize,
    skip_adjacent: bool,
) -> (r: Option<usize>)
    requires
        buf.wf(),
        from <= buf@.len(),
    ensures
        same(r, found_in_row(buf@, from as int, find, count as int, skip_adjacent)),
        r is Some ==> r->0 <= buf@.len(),
{
    let row: usize = buf.byte_to_point(from).row;
    let range: Range<usize> = buf.row_content_range(row);
    let start: usize = range.start;
    let end: usize = range.end;
    let origin: usize = if skip_adjacent && find.till && buf.is_boundary(from) {
        if find.backward {
            if start < from && from <= end {
                scan::retreat_char(buf, from)
            } else {
                from
            }
        } else {
            if from < end {
                scan::advance_char(buf, from)
            } else {
                from
            }
        }
    } else {
        from
    };
    let hit: Option<usize> = if find.backward {
        scan::find_before(buf, end, start, origin, find.target, count)
    } else {
        scan::find_after(buf, start, end, origin, find.target, count)
    };
    match hit {
        None => None,
        Some(at) => {
            if !find.till {
                Some(at)
            } else if find.backward {
                // `t`/`T` stop one character short of the target.
                Some(scan::advance_char(buf, at))
            } else {
                Some(scan::retreat_char(buf, at))
            }
        },
    }
}

// ---------------------------------------------------------------------------
// `%`
// ---------------------------------------------------------------------------

/// The bracket pair `ch` belongs to.
pub open spec fn bracket_pair(ch: char) -> Option<(char, char)> {
    if ch == '(' || ch == ')' {
        Some(('(', ')'))
    } else if ch == '[' || ch == ']' {
        Some(('[', ']'))
    } else if ch == '{' || ch == '}' {
        Some(('{', '}'))
    } else {
        None
    }
}

/// Whether `ch` is a quote.
pub open spec fn is_quote(ch: char) -> bool {
    ch == '"' || ch == '\'' || ch == '`'
}

/// The first bracket in `i..limit`.
pub open spec fn first_bracket(t: Seq<u8>, i: int, limit: int) -> Option<int>
    decreases scan::gap(i, limit),
{
    if !(0 <= i < limit && i < t.len()) {
        None
    } else if bracket_pair(text::char_at(t, i)->0) is Some {
        Some(i)
    } else {
        first_bracket(t, text::next(t, i), limit)
    }
}

/// The first quote in `i..limit`.
pub open spec fn first_quote(t: Seq<u8>, i: int, limit: int) -> Option<int>
    decreases scan::gap(i, limit),
{
    if !(0 <= i < limit && i < t.len()) {
        None
    } else if is_quote(text::char_at(t, i)->0) {
        Some(i)
    } else {
        first_quote(t, text::next(t, i), limit)
    }
}

/// The other end of `pair`, seen from `at`.
pub open spec fn other_end(pair: Option<(int, int)>, at: int) -> Option<int> {
    match pair {
        None => None,
        Some((a, b)) => Some(
            if at == a {
                b
            } else {
                a
            },
        ),
    }
}

/// `%`: the match of the first bracket on the row at or after `at`, or, where the
/// rest of the row holds no bracket, of the first quote.
pub open spec fn matched(t: Seq<u8>, at: int) -> Option<int> {
    let limit = text::content_end(t, text::row_of(t, at));
    match first_bracket(t, at, limit) {
        Some(p) => {
            let (open, close) = bracket_pair(text::char_at(t, p)->0)->0;
            other_end(scan::enclosing_pair(t, p, open, close), p)
        },
        None => match first_quote(t, at, limit) {
            Some(p) => other_end(scan::enclosing_quotes(t, p, text::char_at(t, p)->0), p),
            None => None,
        },
    }
}

fn pair_for(ch: char) -> (r: Option<(char, char)>)
    ensures
        r == bracket_pair(ch),
{
    match ch {
        '(' | ')' => Some(('(', ')')),
        '[' | ']' => Some(('[', ']')),
        '{' | '}' => Some(('{', '}')),
        _ => None,
    }
}

/// `%`: the match of the first delimiter on the row at or after the cursor.
///
/// Brackets are looked for first, so `%` does exactly what vi does wherever vi does
/// anything at all: it takes the first bracket on the row and jumps to its partner,
/// in either direction. Quotes are only consulted when the row holds no bracket.
///
/// The search is row-local, as vi's is: a bracket on the next row is not this row's
/// business.
fn match_pair(buf: &Buffer, at: usize) -> (r: Option<usize>)
    requires
        buf.wf(),
        text::bound(buf@, at as int),
    ensures
        same(r, matched(buf@, at as int)),
        r is Some ==> r->0 <= buf@.len(),
{
    let limit: usize = buf.row_content_range(buf.byte_to_point(at).row).end;
    let mut pos: usize = at;
    let mut quote: Option<(usize, char)> = None;
    while pos < limit
        invariant
            buf.wf(),
            text::bound(buf@, pos as int),
            text::bound(buf@, at as int),
            limit <= buf@.len(),
            limit == text::content_end(buf@, text::row_of(buf@, at as int)),
            first_bracket(buf@, at as int, limit as int) == first_bracket(
                buf@,
                pos as int,
                limit as int,
            ),
            match quote {
                Some((q, ch)) => first_quote(buf@, at as int, limit as int) == Some(q as int)
                    && q < buf@.len() && text::char_at(buf@, q as int) == Some(ch),
                None => first_quote(buf@, at as int, limit as int) == first_quote(
                    buf@,
                    pos as int,
                    limit as int,
                ),
            },
        decreases buf@.len() - pos,
    {
        if let Some(ch) = buf.char_at(pos) {
            if let Some((open, close)) = pair_for(ch) {
                return match scan::pair_around(buf, pos, open, close) {
                    Some((start, finish)) => Some(
                        if pos == start {
                            finish
                        } else {
                            start
                        },
                    ),
                    None => None,
                };
            }
            if quote.is_none() && (ch == '"' || ch == '\'' || ch == '`') {
                quote = Some((pos, ch));
            }
        }
        pos = scan::advance_char(buf, pos);
    }
    match quote {
        Some((q, ch)) => match scan::quotes_around(buf, q, ch) {
            Some((start, finish)) => Some(
                if q == start {
                    finish
                } else {
                    start
                },
            ),
            None => None,
        },
        None => None,
    }
}

// ---------------------------------------------------------------------------
// the screen
// ---------------------------------------------------------------------------

/// `n`, or `limit` where it is more.
pub open spec fn at_most(n: int, limit: int) -> int {
    if n < limit {
        n
    } else {
        limit
    }
}

/// `n`, or zero where it is negative.
pub open spec fn at_least_zero(n: int) -> int {
    if n < 0 {
        0
    } else {
        n
    }
}

/// The row of a buffer of `rows` rows that `H`, `M` or `L` names; none without a
/// screen.
pub open spec fn screen_row<P>(
    rows: int,
    motion: Motion<P>,
    repeat: int,
    viewport: Viewport,
) -> Option<int> {
    let last = rows - 1;
    let top = at_most(viewport.top_row as int, last);
    let bottom = at_most(viewport.top_row + at_least_zero(viewport.height - 1), last);
    if viewport.height == 0 {
        None
    } else {
        match motion {
            Motion::ScreenTop => Some(
                at_most(viewport.top_row + at_least_zero(repeat - 1), last),
            ),
            Motion::ScreenMiddle => Some(top + (bottom - top) / 2),
            Motion::ScreenBottom => Some(at_least_zero(bottom - at_least_zero(repeat - 1))),
            _ => None,
        }
    }
}

fn screen_motion(buf: &Buffer, motion: &Motion, repeat: usize, viewport: Viewport) -> (r: Option<
    usize,
>)
    requires
        buf.wf(),
    ensures
        match r {
            Some(p) => {
                &&& screen_row(text::rows(buf@), motion@, repeat as int, viewport) is Some
                &&& p == scan::first_non_blank(
                    buf@,
                    screen_row(text::rows(buf@), motion@, repeat as int, viewport)->0,
                )
                &&& p <= buf@.len()
            },
            None => screen_row(text::rows(buf@), motion@, repeat as int, viewport) is None,
        },
{
    // A zero height means no host has reported a screen, so screen-relative
    // motions have no meaningful target rather than pretending row zero is it.
    if viewport.height == 0 {
        return None;
    }
    let last: usize = buf.len_rows() - 1;
    let top: usize = if viewport.top_row < last {
        viewport.top_row
    } else {
        last
    };
    let far: usize = viewport.top_row.saturating_add(viewport.height.saturating_sub(1));
    let bottom: usize = if far < last {
        far
    } else {
        last
    };
    let row: usize = match motion {
        Motion::ScreenTop => {
            let wanted: usize = viewport.top_row.saturating_add(repeat.saturating_sub(1));
            if wanted < last {
                wanted
            } else {
                last
            }
        },
        Motion::ScreenMiddle => top + (bottom - top) / 2,
        Motion::ScreenBottom => bottom.saturating_sub(repeat.saturating_sub(1)),
        _ => {
            return None;
        },
    };
    Some(scan::indent_end(buf, row))
}

// ---------------------------------------------------------------------------
// resolution
// ---------------------------------------------------------------------------

/// Where `motion` aims from `from`, before the destination is pulled to a position
/// the cursor may occupy.
#[verifier::opaque]
pub open spec fn aimed(
    t: Seq<u8>,
    from: int,
    motion: Motion<Seq<char>>,
    count: Option<usize>,
    sticky: int,
    last_find: Option<Find>,
    last_search: Option<(Seq<char>, bool)>,
    viewport: Viewport,
    bound: Bound,
) -> Option<int> {
    let repeat = match count {
        Some(n) => n as int,
        None => 1,
    };
    let row = text::row_of(t, from);
    let last = text::rows(t) - 1;
    match motion {
        Motion::Left => Some(grapheme::steps_left(t, from, bound, repeat)),
        Motion::Right => Some(grapheme::steps_right(t, from, bound, repeat)),
        Motion::Down => Some(
            grapheme::at_column(t, at_most(row + repeat, last), sticky, bound),
        ),
        Motion::Up => Some(
            grapheme::at_column(t, at_least_zero(row - repeat), sticky, bound),
        ),
        Motion::FirstColumn => Some(text::row_start(t, row)),
        Motion::FirstNonBlank => Some(scan::first_non_blank(t, row)),
        Motion::LastColumn => Some(
            grapheme::at_column(
                t,
                at_most(at_least_zero(row + repeat - 1), last),
                grapheme::STICKY_END as int,
                bound,
            ),
        ),
        Motion::WordForward { big } => Some(
            word_steps(t, from, WordMove::Forward, big, repeat),
        ),
        Motion::WordBackward { big } => Some(
            word_steps(t, from, WordMove::Backward, big, repeat),
        ),
        Motion::WordEnd { big } => Some(word_steps(t, from, WordMove::End, big, repeat)),
        Motion::Find(find) => found_in_row(t, from, find, repeat, false),
        Motion::RepeatFind { reverse } => match last_find {
            None => None,
            Some(find) => found_in_row(
                t,
                from,
                Find { backward: find.backward != reverse, ..find },
                repeat,
                true,
            ),
        },
        Motion::Search { pattern, backward } => search::found(
            t,
            from,
            pattern,
            backward,
            repeat,
        ),
        Motion::RepeatSearch { reverse } => match last_search {
            None => None,
            Some((pattern, backward)) => search::found(
                t,
                from,
                pattern,
                backward != reverse,
                repeat,
            ),
        },
        Motion::GotoRow => Some(
            scan::first_non_blank(
                t,
                match count {
                    Some(n) => at_most(at_least_zero(n - 1), last),
                    None => last,
                },
            ),
        ),
        Motion::GotoFirstRow => Some(
            scan::first_non_blank(
                t,
                match count {
                    Some(n) => at_most(at_least_zero(n - 1), last),
                    None => 0,
                },
            ),
        ),
        Motion::MatchPair => matched(t, from),
        Motion::ScreenTop | Motion::ScreenMiddle | Motion::ScreenBottom => match screen_row(
            text::rows(t),
            motion,
            repeat,
            viewport,
        ) {
            Some(r) => Some(scan::first_non_blank(t, r)),
            None => None,
        },
        Motion::Mark { .. } => None,
        Motion::ToOffset { offset, linewise } => {
            let at = grapheme::clamped(t, offset as int, bound);
            Some(
                if linewise {
                    scan::first_non_blank(t, text::row_of(t, at))
                } else {
                    at
                },
            )
        },
    }
}

/// Where `motion` lands, starting from `from`; nothing where it cannot be
/// performed at all.
pub open spec fn resolved(
    t: Seq<u8>,
    from: int,
    motion: Motion<Seq<char>>,
    count: Option<usize>,
    sticky: int,
    last_find: Option<Find>,
    last_search: Option<(Seq<char>, bool)>,
    viewport: Viewport,
    bound: Bound,
) -> Option<int> {
    match aimed(t, from, motion, count, sticky, last_find, last_search, viewport, bound) {
        Some(target) => Some(grapheme::clamped(t, target, bound)),
        None => None,
    }
}

/// What a remembered search amounts to.
pub open spec fn search_view(last_search: Option<(&str, bool)>) -> Option<(Seq<char>, bool)> {
    match last_search {
        Some((pattern, backward)) => Some((pattern@, backward)),
        None => None,
    }
}

/// Whether `motion` walks characters and so has to start at the boundary of one.
pub open spec fn walks_chars<P>(motion: Motion<P>) -> bool {
    match motion {
        Motion::WordForward { .. }
        | Motion::WordBackward { .. }
        | Motion::WordEnd { .. }
        | Motion::MatchPair => true,
        _ => false,
    }
}

fn aim(
    buf: &Buffer,
    from: usize,
    motion: Motion,
    count: Option<usize>,
    sticky: usize,
    last_find: Option<Find>,
    last_search: Option<(&str, bool)>,
    viewport: Viewport,
    bound: Bound,
) -> (r: Option<usize>)
    requires
        buf.wf(),
        from <= buf@.len(),
        walks_chars(motion@) ==> text::bound(buf@, from as int),
    ensures
        same(
            r,
            aimed(
                buf@,
                from as int,
                motion@,
                count,
                sticky as int,
                last_find,
                search_view(last_search),
                viewport,
                bound,
            ),
        ),
{
    proof {
        reveal(aimed);
    }
    let repeat: usize = count.unwrap_or(1);
    let row: usize = buf.byte_to_point(from).row;
    let rows: usize = buf.len_rows();
    match motion {
        Motion::Left => Some(grapheme::walk_left(buf, from, bound, repeat)),
        Motion::Right => Some(grapheme::walk_right(buf, from, bound, repeat)),
        Motion::Down => {
            let wanted: usize = row.saturating_add(repeat);
            let target: usize = if wanted < rows - 1 {
                wanted
            } else {
                rows - 1
            };
            Some(grapheme::byte_at_col(buf, target, sticky, bound))
        },
        Motion::Up => {
            let target: usize = row.saturating_sub(repeat);
            Some(grapheme::byte_at_col(buf, target, sticky, bound))
        },
        Motion::FirstColumn => Some(buf.row_content_range(row).start),
        Motion::FirstNonBlank => Some(scan::indent_end(buf, row)),
        Motion::LastColumn => {
            let wanted: usize = row.saturating_add(repeat.saturating_sub(1));
            let wanted: usize = if repeat == 0 {
                row.saturating_sub(1)
            } else {
                wanted
            };
            let target: usize = if wanted < rows - 1 {
                wanted
            } else {
                rows - 1
            };
            Some(grapheme::byte_at_col(buf, target, grapheme::STICKY_END, bound))
        },
        Motion::WordForward { big } => Some(
            walk_words(buf, from, WordMove::Forward, big, repeat),
        ),
        Motion::WordBackward { big } => Some(
            walk_words(buf, from, WordMove::Backward, big, repeat),
        ),
        Motion::WordEnd { big } => Some(walk_words(buf, from, WordMove::End, big, repeat)),
        Motion::Find(find) => find_in_row(buf, from, find, repeat, false),
        Motion::RepeatFind { reverse } => match last_find {
            None => None,
            Some(find) => find_in_row(
                buf,
                from,
                Find {
                    target: find.target,
                    backward: find.backward != reverse,
                    till: find.till,
                },
                repeat,
                true,
            ),
        },
        Motion::Search { pattern, backward } => search::search(
            buf,
            from,
            pattern.as_str(),
            backward,
            repeat,
        ),
        Motion::RepeatSearch { reverse } => match last_search {
            None => None,
            Some((pattern, backward)) => search::search(
                buf,
                from,
                pattern,
                backward != reverse,
                repeat,
            ),
        },
        // `G` and `gg` take the count as an absolute row, 1-based.
        Motion::GotoRow => {
            let target: usize = match count {
                Some(n) => {
                    let wanted: usize = n.saturating_sub(1);
                    if wanted < rows - 1 {
                        wanted
                    } else {
                        rows - 1
                    }
                },
                None => rows - 1,
            };
            Some(scan::indent_end(buf, target))
        },
        Motion::GotoFirstRow => {
            let target: usize = match count {
                Some(n) => {
                    let wanted: usize = n.saturating_sub(1);
                    if wanted < rows - 1 {
                        wanted
                    } else {
                        rows - 1
                    }
                },
                None => 0,
            };
            Some(scan::indent_end(buf, target))
        },
        Motion::MatchPair => match_pair(buf, from),
        Motion::ScreenTop => screen_motion(buf, &Motion::ScreenTop, repeat, viewport),
        Motion::ScreenMiddle => screen_motion(buf, &Motion::ScreenMiddle, repeat, viewport),
        Motion::ScreenBottom => screen_motion(buf, &Motion::ScreenBottom, repeat, viewport),
        // Marks belong to the editor's navigation state. It turns them into the
        // concrete `ToOffset` vocabulary before this pure resolver is called.
        Motion::Mark { .. } => None,
        Motion::ToOffset { offset, linewise } => {
            let at: usize = grapheme::clamp(buf, offset, bound);
            if linewise {
                Some(scan::indent_end(buf, buf.byte_to_point(at).row))
            } else {
                Some(at)
            }
        },
    }
}

/// Where `motion` lands, starting from `from`.
///
/// `sticky` is the remembered grapheme column for `j`/`k`. `last_find` supplies the
/// target for [`Motion::RepeatFind`]. `last_search` supplies the pattern and
/// direction for [`Motion::RepeatSearch`]. `viewport` is the host's current screen
/// fact for `H`/`M`/`L`.
///
/// Returns `None` when the motion cannot be performed at all. Where it can, it
/// lands in the buffer, at a position the cursor may occupy under `bound`.
#[must_use]
pub fn resolve(
    buf: &Buffer,
    from: usize,
    motion: Motion,
    count: Option<usize>,
    sticky: usize,
    last_find: Option<Find>,
    last_search: Option<(&str, bool)>,
    viewport: Viewport,
    bound: Bound,
) -> (r: Option<usize>)
    requires
        buf.wf(),
        from <= buf@.len(),
        walks_chars(motion@) ==> text::bound(buf@, from as int),
    ensures
        same(
            r,
            resolved(
                buf@,
                from as int,
                motion@,
                count,
                sticky as int,
                last_find,
                search_view(last_search),
                viewport,
                bound,
            ),
        ),
        r is Some ==> grapheme::rests(buf@, r->0 as int, bound),
        r is Some ==> r->0 <= buf@.len() && text::bound(buf@, r->0 as int),
{
    match aim(
        buf,
        from,
        motion,
        count,
        sticky,
        last_find,
        last_search,
        viewport,
        bound,
    ) {
        Some(target) => Some(grapheme::clamp(buf, target, bound)),
        None => None,
    }
}

} // verus!
