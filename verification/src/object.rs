//! Text objects: the structural regions that `i` and `a` select.

use core::ops::Range;
use vstd::prelude::*;
use vstd::utf8::*;

use crate::buffer::Buffer;
use crate::command::{ObjectScope, TextObject};
use crate::motion::{Extent, Span};
use crate::motion;
use crate::scan;
use crate::scan::Run;
use crate::text;
use crate::unicode;

verus! {

// ---------------------------------------------------------------------------
// words
// ---------------------------------------------------------------------------

/// Whether a word object cannot go past `i`: the end of the text, or the newline
/// that ends a row.
pub open spec fn spent(t: Seq<u8>, i: int) -> bool {
    match text::char_at(t, i) {
        None => true,
        Some(ch) => ch == '\n',
    }
}

/// The end of the run that starts at `i`, a stretch of whitespace being a run of
/// its own that stays on its row.
pub open spec fn next_run_end(t: Seq<u8>, i: int, big: bool) -> int {
    match scan::class_at(t, i, big) {
        Some(scan::Class::Blank) => scan::run_end(t, i, Run::Inline),
        _ => scan::word_run(t, i, big).1,
    }
}

/// Past `n` further runs from `i`, as far as the row goes.
pub open spec fn past_runs(t: Seq<u8>, i: int, big: bool, n: int) -> int
    decreases n,
{
    if n <= 0 || spent(t, i) {
        i
    } else {
        past_runs(t, next_run_end(t, i, big), big, n - 1)
    }
}

/// Past `n` further words from `i`, each with the blanks behind it, as far as the
/// row goes.
pub open spec fn past_words(t: Seq<u8>, i: int, big: bool, n: int) -> int
    decreases n,
{
    if n <= 0 || spent(t, i) {
        i
    } else {
        past_words(
            t,
            scan::run_end(t, scan::word_run(t, i, big).1, Run::Inline),
            big,
            n - 1,
        )
    }
}

/// `iw` / `aw` over `count` runs: `3iw` is word, space, word, while `3aw` is three
/// words each with the space that follows it, or with the space before the first
/// where none follows it.
pub open spec fn word_object(
    t: Seq<u8>,
    at: int,
    scope: ObjectScope,
    big: bool,
    count: int,
) -> Option<Extent> {
    let (a, b) = scan::word_run(t, at, big);
    if a == b {
        None
    } else {
        match scope {
            ObjectScope::Inner => Some(
                Extent::Chars { start: a, end: past_runs(t, b, big, count - 1) },
            ),
            ObjectScope::Around => {
                let behind = scan::run_end(t, b, Run::Inline);
                Some(
                    Extent::Chars {
                        start: if behind > b {
                            a
                        } else {
                            scan::run_start(t, a, Run::Inline)
                        },
                        end: past_words(t, behind, big, count - 1),
                    },
                )
            },
        }
    }
}

fn is_spent(buf: &Buffer, at: usize) -> (r: bool)
    requires
        buf.wf(),
        text::bound(buf@, at as int),
    ensures
        r == spent(buf@, at as int),
        !r ==> at < buf@.len(),
{
    match buf.char_at(at) {
        None => true,
        Some(ch) => ch == '\n',
    }
}

/// `iw` / `aw`, with a count taking in further runs of text.
///
/// A stretch of whitespace is a run of its own, so `3iw` is word, space, word,
/// while `3aw` is three words each with the space that follows it.
fn select_word(buf: &Buffer, at: usize, scope: ObjectScope, big: bool, count: usize) -> (r: Option<
    Span,
>)
    requires
        buf.wf(),
        text::bound(buf@, at as int),
        count >= 1,
    ensures
        match r {
            Some(span) => word_object(buf@, at as int, scope, big, count as int) == Some(span@)
                && span@.lies_in(buf@) && motion::intact(span),
            None => word_object(buf@, at as int, scope, big, count as int) is None,
        },
{
    let (start, end): (usize, usize) = scan::run_around(buf, at, big);
    if start == end {
        return None;
    }
    // A word object never joins rows, so the newline ending this one is where a
    // count runs out.
    match scope {
        ObjectScope::Inner => {
            let mut pos: usize = end;
            let mut left: usize = count - 1;
            while left > 0 && !is_spent(buf, pos)
                invariant
                    buf.wf(),
                    text::bound(buf@, pos as int),
                    start <= end <= pos <= buf@.len(),
                    past_runs(buf@, end as int, big, count - 1) == past_runs(
                        buf@,
                        pos as int,
                        big,
                        left as int,
                    ),
                ensures
                    past_runs(buf@, end as int, big, count - 1) == pos,
                decreases left,
            {
                let blank: bool = match buf.char_at(pos) {
                    Some(ch) => unicode::whitespace(ch),
                    None => false,
                };
                pos = if blank {
                    scan::scan_run(buf, pos, Run::Inline)
                } else {
                    scan::run_around(buf, pos, big).1
                };
                left -= 1;
            }
            Some(Span::Chars(start..pos))
        },
        // `aw` takes the trailing whitespace too, or the leading run when there is
        // none after.
        ObjectScope::Around => {
            let behind: usize = scan::scan_run(buf, end, Run::Inline);
            let mut pos: usize = behind;
            let mut left: usize = count - 1;
            while left > 0 && !is_spent(buf, pos)
                invariant
                    buf.wf(),
                    text::bound(buf@, pos as int),
                    start <= end <= behind <= pos <= buf@.len(),
                    past_words(buf@, behind as int, big, count - 1) == past_words(
                        buf@,
                        pos as int,
                        big,
                        left as int,
                    ),
                ensures
                    past_words(buf@, behind as int, big, count - 1) == pos,
                decreases left,
            {
                pos = scan::scan_run(buf, scan::run_around(buf, pos, big).1, Run::Inline);
                left -= 1;
            }
            let from: usize = if behind > end {
                start
            } else {
                scan::scan_run_back(buf, start, Run::Inline)
            };
            Some(Span::Chars(from..pos))
        },
    }
}

// ---------------------------------------------------------------------------
// pairs
// ---------------------------------------------------------------------------

/// The pair `n` levels out of `pair`. Only a pair that contains the one before
/// counts as a level.
pub open spec fn climbed(t: Seq<u8>, pair: (int, int), open: char, close: char, n: int) -> Option<
    (int, int),
>
    decreases n,
{
    let (start, end) = pair;
    if n <= 0 {
        Some(pair)
    } else if start == 0 {
        None
    } else {
        match scan::enclosing_pair(t, text::prev(t, start), open, close) {
            None => None,
            Some((s, e)) => if s >= start || e <= end {
                None
            } else {
                climbed(t, (s, e), open, close, n - 1)
            },
        }
    }
}

/// The pair `n` levels inside `pair`, each the first nested in the one before.
pub open spec fn descended(
    t: Seq<u8>,
    pair: (int, int),
    open: char,
    close: char,
    n: int,
) -> Option<(int, int)>
    decreases n,
{
    if n <= 0 {
        Some(pair)
    } else {
        match scan::next_open(t, text::next(t, pair.0), pair.1, open, close) {
            None => None,
            Some(inner) => match scan::enclosing_pair(t, inner, open, close) {
                None => None,
                Some(next) => descended(t, next, open, close, n - 1),
            },
        }
    }
}

/// The delimiter pair `count` nesting levels from `at`: outward from the pair
/// around it, or, inside none, inward from the next pair ahead.
pub open spec fn pair_at_level(
    t: Seq<u8>,
    at: int,
    open: char,
    close: char,
    count: int,
) -> Option<(int, int)> {
    match scan::enclosing_pair(t, at, open, close) {
        Some(pair) => climbed(t, pair, open, close, count - 1),
        None => match scan::next_open(t, at, t.len() as int, open, close) {
            None => None,
            Some(start) => match scan::enclosing_pair(t, start, open, close) {
                None => None,
                Some(pair) => descended(t, pair, open, close, count - 1),
            },
        },
    }
}

/// Climb `count - 1` levels out of the pair the cursor is in.
fn climb_out(
    buf: &Buffer,
    pair: (usize, usize),
    open: char,
    close: char,
    count: usize,
) -> (r: Option<(usize, usize)>)
    requires
        buf.wf(),
        scan::is_pair(buf@, pair),
        count >= 1,
    ensures
        scan::same_pair(
            r,
            climbed(buf@, (pair.0 as int, pair.1 as int), open, close, count - 1),
        ),
        r is Some ==> scan::is_pair(buf@, r->0),
{
    let mut start: usize = pair.0;
    let mut end: usize = pair.1;
    let mut left: usize = count - 1;
    while left > 0
        invariant
            buf.wf(),
            scan::is_pair(buf@, (start, end)),
            climbed(buf@, (pair.0 as int, pair.1 as int), open, close, count - 1) == climbed(
                buf@,
                (start as int, end as int),
                open,
                close,
                left as int,
            ),
        decreases left,
    {
        if start == 0 {
            return None;
        }
        match scan::pair_around(buf, scan::retreat_char(buf, start), open, close) {
            None => {
                return None;
            },
            Some((s, e)) => {
                // Searching from just before this pair finds an adjacent sibling
                // as readily as an enclosing one, so only a pair that genuinely
                // contains this one counts as a level.
                if s >= start || e <= end {
                    return None;
                }
                start = s;
                end = e;
            },
        }
        left -= 1;
    }
    Some((start, end))
}

/// Descend `count - 1` levels into the first pair nested inside this one.
fn descend_into(
    buf: &Buffer,
    pair: (usize, usize),
    open: char,
    close: char,
    count: usize,
) -> (r: Option<(usize, usize)>)
    requires
        buf.wf(),
        scan::is_pair(buf@, pair),
        count >= 1,
    ensures
        scan::same_pair(
            r,
            descended(buf@, (pair.0 as int, pair.1 as int), open, close, count - 1),
        ),
        r is Some ==> scan::is_pair(buf@, r->0),
{
    let mut start: usize = pair.0;
    let mut end: usize = pair.1;
    let mut left: usize = count - 1;
    while left > 0
        invariant
            buf.wf(),
            scan::is_pair(buf@, (start, end)),
            descended(buf@, (pair.0 as int, pair.1 as int), open, close, count - 1)
                == descended(
                buf@,
                (start as int, end as int),
                open,
                close,
                left as int,
            ),
        decreases left,
    {
        // The *first* pair nested inside, so `2di{` on `{ a {b} c {d} e }` takes
        // `{b}`. Siblings are not levels: with nothing nested inside, there is
        // nowhere to descend to and the object fails rather than settling for the
        // pair we already have.
        match scan::opening_ahead(buf, scan::advance_char(buf, start), end, open, close) {
            None => {
                return None;
            },
            Some(inner) => match scan::pair_around(buf, inner, open, close) {
                None => {
                    return None;
                },
                Some((s, e)) => {
                    start = s;
                    end = e;
                },
            },
        }
        left -= 1;
    }
    Some((start, end))
}

/// The delimiter pair `count` nesting levels from the cursor.
///
/// Which direction that counts in depends on where the cursor is, and both
/// directions are vi's. Inside a pair the count climbs *outward*: `2di{` takes the
/// pair around the pair the cursor is in. Inside none, vi seeks forward to the next
/// pair and the count descends *inward* from it. Either way the count is the
/// nesting level you asked for, counted from where you stand.
fn find_pair(buf: &Buffer, at: usize, open: char, close: char, count: usize) -> (r: Option<
    (usize, usize),
>)
    requires
        buf.wf(),
        text::bound(buf@, at as int),
        count >= 1,
    ensures
        scan::same_pair(r, pair_at_level(buf@, at as int, open, close, count as int)),
        r is Some ==> scan::is_pair(buf@, r->0),
{
    match scan::pair_around(buf, at, open, close) {
        Some(pair) => climb_out(buf, pair, open, close, count),
        None => {
            proof {
                text::lemma_ends(buf@);
            }
            // vi does not seek backwards, so a pair the cursor has already passed
            // is out of reach.
            match scan::opening_ahead(buf, at, buf.len_bytes(), open, close) {
                None => None,
                Some(start) => match scan::pair_around(buf, start, open, close) {
                    None => None,
                    Some(pair) => descend_into(buf, pair, open, close, count),
                },
            }
        },
    }
}

/// The inside of a pair, following vi's rule for delimiters that own their rows.
///
/// When the opening delimiter is the last thing on its row, the inside starts at
/// the row below; when the closing delimiter has nothing but indent before it, the
/// inside ends where the row above ends, taking that row's break along where the
/// inside starts at a row of its own.
pub open spec fn inside(t: Seq<u8>, open: int, close: int) -> (int, int) {
    let after = text::next(t, open);
    let open_row = text::row_of(t, open);
    let below = after == text::content_end(t, open_row) && open_row + 1 < text::rows(t);
    let start = if below {
        text::row_start(t, open_row + 1)
    } else {
        after
    };
    let close_row = text::row_of(t, close);
    let above = close_row > 0 && scan::all_space(t, text::row_start(t, close_row), close);
    let end = if above {
        if below {
            text::row_start(t, close_row)
        } else {
            text::content_end(t, close_row - 1)
        }
    } else {
        close
    };
    (
        start,
        if end < start {
            start
        } else {
            end
        },
    )
}

/// The inside of a pair, following vi's rule for delimiters that own their rows.
///
/// So `di{` on a function body takes the body's rows and leaves the braces where
/// they were, instead of dragging them together onto one row.
///
/// Note that vi *shrinks the span* here rather than promoting the object to
/// linewise: `vi{` on such a block is still a characterwise selection. The two
/// adjustments can meet in the middle on `{\n}`, which leaves an empty span: vi
/// fails the object outright, and an empty span rings, which is the same answer.
fn inner_span(buf: &Buffer, open: usize, close: usize) -> (r: Range<usize>)
    requires
        buf.wf(),
        scan::is_pair(buf@, (open, close)),
    ensures
        r.start == inside(buf@, open as int, close as int).0,
        r.end == inside(buf@, open as int, close as int).1,
        r.start <= r.end,
        text::bound(buf@, r.start as int),
        text::bound(buf@, r.end as int),
{
    let rows: usize = buf.len_rows();
    let after: usize = scan::advance_char(buf, open);
    let open_row: usize = buf.byte_to_point(open).row;
    // The open ends its row, so the inside begins on the row below it.
    let below: bool = after == buf.row_content_range(open_row).end && open_row + 1 < rows;
    let start: usize = if below {
        buf.row_range(open_row + 1).start
    } else {
        after
    };
    let close_row: usize = buf.byte_to_point(close).row;
    let mut end: usize = close;
    if close_row > 0 {
        let row_start: usize = buf.row_range(close_row).start;
        // Only indent between the row's start and the delimiter.
        if scan::past_space(buf, row_start, close) == close {
            proof {
                text::lemma_rows(buf@, close_row - 1);
            }
            // The row break above the delimiter is the object's to take only when
            // the span already begins at a row boundary. Otherwise the front of
            // that row survives and needs its newline.
            end = if below {
                row_start
            } else {
                buf.row_content_range(close_row - 1).end
            };
        }
    }
    start..(if end < start {
        start
    } else {
        end
    })
}

/// The span between a pair of delimiters, with or without the delimiters.
pub open spec fn pair_extent(t: Seq<u8>, pair: (int, int), scope: ObjectScope) -> Extent {
    match scope {
        ObjectScope::Inner => Extent::Chars {
            start: inside(t, pair.0, pair.1).0,
            end: inside(t, pair.0, pair.1).1,
        },
        ObjectScope::Around => Extent::Chars { start: pair.0, end: text::next(t, pair.1) },
    }
}

fn pair_span(buf: &Buffer, pair: (usize, usize), scope: ObjectScope) -> (r: Span)
    requires
        buf.wf(),
        scan::is_pair(buf@, pair),
    ensures
        r@ == pair_extent(buf@, (pair.0 as int, pair.1 as int), scope),
        r@.lies_in(buf@),
        motion::intact(r),
{
    match scope {
        ObjectScope::Inner => Span::Chars(inner_span(buf, pair.0, pair.1)),
        ObjectScope::Around => Span::Chars(pair.0..scan::advance_char(buf, pair.1)),
    }
}

// ---------------------------------------------------------------------------
// paragraphs
// ---------------------------------------------------------------------------

/// The first row of the stretch of rows with text that reaches up from `row`.
pub open spec fn text_above(t: Seq<u8>, row: int) -> int
    decreases row,
{
    if row > 0 && !scan::blank_row(t, row - 1) {
        text_above(t, row - 1)
    } else {
        row
    }
}

/// The last row of the stretch below `row` whose rows are all blank, or all not.
pub open spec fn alike_below(t: Seq<u8>, row: int, blank: bool) -> int
    decreases text::rows(t) - row,
{
    if row + 1 < text::rows(t) && scan::blank_row(t, row + 1) == blank {
        alike_below(t, row + 1, blank)
    } else {
        row
    }
}

/// Past `n` further runs of rows below `row`, a gap of blank rows being a run.
pub open spec fn past_row_runs(t: Seq<u8>, row: int, n: int) -> int
    decreases n,
{
    if n <= 0 || row + 1 >= text::rows(t) {
        row
    } else {
        past_row_runs(t, alike_below(t, row + 1, scan::blank_row(t, row + 1)), n - 1)
    }
}

/// Past `n` further paragraphs below `row`, each with the gap that follows it.
pub open spec fn past_paragraphs(t: Seq<u8>, row: int, n: int) -> int
    decreases n,
{
    if n <= 0 || row + 1 >= text::rows(t) || scan::blank_row(t, row + 1) {
        row
    } else {
        past_paragraphs(t, alike_below(t, alike_below(t, row + 1, false), true), n - 1)
    }
}

/// `ip` / `ap`, blank-row delimited and always linewise. `3ip` is paragraph, gap,
/// paragraph, while `2ap` is two paragraphs each with the gap that follows it.
pub open spec fn paragraph_object(t: Seq<u8>, at: int, scope: ObjectScope, count: int) -> Extent {
    let row = text::row_of(t, at);
    let body = alike_below(t, row, false);
    Extent::Lines {
        first: text_above(t, row),
        last: match scope {
            ObjectScope::Inner => past_row_runs(t, body, count - 1),
            ObjectScope::Around => past_paragraphs(t, alike_below(t, body, true), count - 1),
        },
    }
}

fn last_alike(buf: &Buffer, row: usize, blank: bool) -> (r: usize)
    requires
        buf.wf(),
        row < text::rows(buf@),
    ensures
        r == alike_below(buf@, row as int, blank),
        row <= r < text::rows(buf@),
{
    let rows: usize = buf.len_rows();
    let mut last: usize = row;
    while last + 1 < rows && scan::is_blank_row(buf, last + 1) == blank
        invariant
            buf.wf(),
            rows == text::rows(buf@),
            row <= last < rows,
            alike_below(buf@, row as int, blank) == alike_below(buf@, last as int, blank),
        ensures
            alike_below(buf@, row as int, blank) == last,
        decreases rows - last,
    {
        last += 1;
    }
    last
}

/// `ip` / `ap`, blank-row delimited and always linewise.
fn select_paragraph(buf: &Buffer, at: usize, scope: ObjectScope, count: usize) -> (r: Span)
    requires
        buf.wf(),
        at <= buf@.len(),
        count >= 1,
    ensures
        r@ == paragraph_object(buf@, at as int, scope, count as int),
        r@.lies_in(buf@),
        motion::intact(r),
{
    let rows: usize = buf.len_rows();
    let row: usize = buf.byte_to_point(at).row;
    let mut first: usize = row;
    while first > 0 && !scan::is_blank_row(buf, first - 1)
        invariant
            buf.wf(),
            first <= row < text::rows(buf@),
            text_above(buf@, row as int) == text_above(buf@, first as int),
        ensures
            text_above(buf@, row as int) == first,
        decreases first,
    {
        first -= 1;
    }
    let body: usize = last_alike(buf, row, false);
    let mut left: usize = count - 1;
    match scope {
        ObjectScope::Inner => {
            let mut last: usize = body;
            while left > 0 && last + 1 < rows
                invariant
                    buf.wf(),
                    rows == text::rows(buf@),
                    row <= last < rows,
                    past_row_runs(buf@, body as int, count - 1) == past_row_runs(
                        buf@,
                        last as int,
                        left as int,
                    ),
                ensures
                    past_row_runs(buf@, body as int, count - 1) == last,
                decreases left,
            {
                let want: bool = scan::is_blank_row(buf, last + 1);
                last = last_alike(buf, last + 1, want);
                left -= 1;
            }
            Span::lines(first, last)
        },
        ObjectScope::Around => {
            let gap: usize = last_alike(buf, body, true);
            let mut last: usize = gap;
            while left > 0 && last + 1 < rows && !scan::is_blank_row(buf, last + 1)
                invariant
                    buf.wf(),
                    rows == text::rows(buf@),
                    row <= last < rows,
                    past_paragraphs(buf@, gap as int, count - 1) == past_paragraphs(
                        buf@,
                        last as int,
                        left as int,
                    ),
                ensures
                    past_paragraphs(buf@, gap as int, count - 1) == last,
                decreases left,
            {
                let text_end: usize = last_alike(buf, last + 1, false);
                last = last_alike(buf, text_end, true);
                left -= 1;
            }
            Span::lines(first, last)
        },
    }
}

// ---------------------------------------------------------------------------
// objects
// ---------------------------------------------------------------------------

/// The extent a text object covers with the cursor at `at`.
#[verifier::opaque]
pub open spec fn object_extent(
    t: Seq<u8>,
    at: int,
    scope: ObjectScope,
    object: TextObject,
    count: int,
) -> Option<Extent> {
    let n = if count < 1 {
        1
    } else {
        count
    };
    match object {
        TextObject::Word { big } => word_object(t, at, scope, big, n),
        TextObject::Delimited { open, close } => match pair_at_level(t, at, open, close, n) {
            Some(pair) => Some(pair_extent(t, pair, scope)),
            None => None,
        },
        TextObject::Quoted(quote) => match scan::enclosing_quotes(t, at, quote) {
            Some(pair) => Some(pair_extent(t, pair, scope)),
            None => None,
        },
        TextObject::Paragraph => Some(paragraph_object(t, at, scope, n)),
    }
}

/// The span a text object covers with the cursor at `at`.
///
/// `count` means something different for each kind of object, following vi: nesting
/// levels for a delimited pair, runs of text for a word, paragraphs for a
/// paragraph. Quotes do not nest and have nothing to count, so they ignore it.
#[must_use]
pub fn object_span(
    buf: &Buffer,
    at: usize,
    scope: ObjectScope,
    object: TextObject,
    count: usize,
) -> (r: Option<Span>)
    requires
        buf.wf(),
        at <= buf@.len(),
        object is Word || object is Delimited ==> text::bound(buf@, at as int),
    ensures
        match r {
            Some(span) => object_extent(buf@, at as int, scope, object, count as int) == Some(
                span@,
            ) && span@.lies_in(buf@) && motion::intact(span),
            None => object_extent(buf@, at as int, scope, object, count as int) is None,
        },
{
    proof {
        reveal(object_extent);
    }
    let count: usize = if count < 1 {
        1
    } else {
        count
    };
    match object {
        TextObject::Word { big } => select_word(buf, at, scope, big, count),
        TextObject::Delimited { open, close } => match find_pair(buf, at, open, close, count) {
            Some(pair) => Some(pair_span(buf, pair, scope)),
            None => None,
        },
        TextObject::Quoted(quote) => match scan::quotes_around(buf, at, quote) {
            Some(pair) => Some(pair_span(buf, pair, scope)),
            None => None,
        },
        TextObject::Paragraph => Some(select_paragraph(buf, at, scope, count)),
    }
}

/// The delimiters of the object around `at`; words and paragraphs have none.
pub open spec fn delimiters_of(t: Seq<u8>, at: int, object: TextObject) -> Option<(int, int)> {
    match object {
        TextObject::Delimited { open, close } => pair_at_level(t, at, open, close, 1),
        TextObject::Quoted(quote) => scan::enclosing_quotes(t, at, quote),
        _ => None,
    }
}

/// Whether the characters at `pair` are the delimiters of `object`.
pub open spec fn delimits(t: Seq<u8>, pair: (usize, usize), object: TextObject) -> bool {
    match object {
        TextObject::Delimited { open, close } => text::char_at(t, pair.0 as int) == Some(open)
            && text::char_at(t, pair.1 as int) == Some(close),
        TextObject::Quoted(quote) => text::char_at(t, pair.0 as int) == Some(quote)
            && text::char_at(t, pair.1 as int) == Some(quote),
        _ => false,
    }
}

/// The delimiters found are those of the object.
proof fn lemma_delimiters(t: Seq<u8>, at: int, object: TextObject)
    requires
        valid_utf8(t),
        t.len() <= usize::MAX,
        0 <= at <= t.len(),
        object is Delimited ==> text::bound(t, at),
    ensures
        delimiters_of(t, at, object) matches Some((a, b)) ==> delimits(
            t,
            (a as usize, b as usize),
            object,
        ),
{
    match object {
        TextObject::Delimited { open, close } => {
            lemma_pair_found(t, at, open, close);
            lemma_next_open_found(t, at, t.len() as int, open, close);
            if let Some(s) = scan::next_open(t, at, t.len() as int, open, close) {
                lemma_pair_found(t, s, open, close);
            }
        },
        TextObject::Quoted(quote) => {
            let row = text::row_of(t, at);
            text::lemma_row_of(t, at);
            text::lemma_rows(t, row);
            text::lemma_row_bounds(t, row);
            lemma_quotes_found(
                t,
                text::row_start(t, row),
                text::content_end(t, row),
                at,
                quote,
            );
            lemma_quote_char(
                t,
                text::row_start(t, row),
                text::content_end(t, row),
                at,
                quote,
            );
        },
        _ => {},
    }
}

/// Byte offsets of the delimiters of the object around `at`. Words and paragraphs
/// have none.
#[must_use]
pub fn delimiters(buf: &Buffer, at: usize, object: TextObject) -> (r: Option<(usize, usize)>)
    requires
        buf.wf(),
        at <= buf@.len(),
        object is Delimited ==> text::bound(buf@, at as int),
    ensures
        scan::same_pair(r, delimiters_of(buf@, at as int, object)),
        r is Some ==> scan::is_pair(buf@, r->0) && delimits(buf@, r->0, object),
{
    proof {
        lemma_delimiters(buf@, at as int, object);
    }
    match object {
        TextObject::Delimited { open, close } => find_pair(buf, at, open, close, 1),
        TextObject::Quoted(quote) => scan::quotes_around(buf, at, quote),
        TextObject::Word { .. } => None,
        TextObject::Paragraph => None,
    }
}

// ---------------------------------------------------------------------------
// what objects promise
// ---------------------------------------------------------------------------

/// Whether `outer` covers `inner`.
pub open spec fn covers(outer: Extent, inner: Extent) -> bool {
    match (outer, inner) {
        (Extent::Chars { start: a, end: b }, Extent::Chars { start: c, end: d }) => a <= c && d
            <= b,
        (Extent::Lines { first: a, last: b }, Extent::Lines { first: c, last: d }) => a <= c && d
            <= b,
        _ => false,
    }
}

proof fn lemma_run_start_before(t: Seq<u8>, i: int, run: Run)
    ensures
        scan::run_start(t, i, run) <= i,
    decreases i,
{
    if 0 < i <= t.len() && text::prev(t, i) >= 0 && run.takes(text::char_before(t, i)->0) {
        text::lemma_char_width(text::char_before(t, i)->0);
        lemma_run_start_before(t, text::prev(t, i), run);
    }
}

proof fn lemma_alike_below(t: Seq<u8>, row: int, blank: bool)
    ensures
        row <= alike_below(t, row, blank),
    decreases text::rows(t) - row,
{
    if row + 1 < text::rows(t) && scan::blank_row(t, row + 1) == blank {
        lemma_alike_below(t, row + 1, blank);
    }
}

/// Whether the closing delimiter is the carriage return of the terminator that follows
/// the opening one.
pub open spec fn swallowed(t: Seq<u8>, open: int, close: int) -> bool {
    &&& close == text::next(t, open)
    &&& close == text::content_end(t, text::row_of(t, open))
    &&& t[close] == 13u8
}

/// The inside of a pair lies within the pair, unless the terminator behind the opening
/// delimiter swallows the closing one.
proof fn lemma_inside(t: Seq<u8>, pair: (usize, usize))
    requires
        valid_utf8(t),
        scan::is_pair(t, pair),
        !swallowed(t, pair.0 as int, pair.1 as int),
    ensures
        pair.0 <= inside(t, pair.0 as int, pair.1 as int).0,
        inside(t, pair.0 as int, pair.1 as int).1 <= text::next(t, pair.1 as int),
{
    let open = pair.0 as int;
    let close = pair.1 as int;
    text::lemma_next(t, open);
    text::lemma_next(t, close);
    let after = text::next(t, open);
    let open_row = text::row_of(t, open);
    text::lemma_row_of(t, open);
    text::lemma_rows(t, open_row);
    if after == text::content_end(t, open_row) && open_row + 1 < text::rows(t) {
        // the terminator follows: a line feed, with a carriage return before it or
        // not
        let next_row = text::row_start(t, open_row + 1);
        assert(next_row - after <= 2);
        if next_row == after + 2 {
            assert(t[after] == 13u8);
            assert(close != after);
        }
    }
    let close_row = text::row_of(t, close);
    text::lemma_row_of(t, close);
    if close_row > 0 {
        text::lemma_rows(t, close_row - 1);
    }
}

proof fn lemma_inside_law(t: Seq<u8>, pair: (int, int))
    requires
        valid_utf8(t),
        0 <= pair.0 < pair.1 < t.len(),
        t.len() <= usize::MAX,
        text::bound(t, pair.0),
        text::bound(t, pair.1),
        !swallowed(t, pair.0, pair.1),
    ensures
        covers(
            pair_extent(t, pair, ObjectScope::Around),
            pair_extent(t, pair, ObjectScope::Inner),
        ),
{
    text::lemma_next(t, pair.0);
    if text::next(t, pair.0) > pair.1 {
        assert(!text::bound(t, pair.1));
    }
    lemma_inside(t, (pair.0 as usize, pair.1 as usize));
}

proof fn lemma_close_found(t: Seq<u8>, i: int, depth: int, open: char, close: char)
    requires
        valid_utf8(t),
        text::bound(t, i),
    ensures
        scan::close_after(t, i, depth, open, close) matches Some(e) ==> i <= e < t.len()
            && text::bound(t, e) && text::char_at(t, e) == Some(close),
    decreases scan::gap(i, t.len() as int),
{
    if i < t.len() {
        text::lemma_next(t, i);
        let n = text::next(t, i);
        lemma_close_found(t, n, depth, open, close);
        lemma_close_found(t, n, depth + 1, open, close);
        lemma_close_found(t, n, depth - 1, open, close);
    }
}

proof fn lemma_open_found(t: Seq<u8>, i: int, depth: int, open: char, close: char)
    requires
        valid_utf8(t),
        text::bound(t, i),
    ensures
        scan::open_before(t, i, depth, open, close) matches Some(s) ==> 0 <= s < i
            && text::bound(t, s) && text::char_at(t, s) == Some(open),
    decreases i,
{
    if i > 0 {
        text::lemma_prev(t, i);
        let p = text::prev(t, i);
        lemma_open_found(t, p, depth, open, close);
        lemma_open_found(t, p, depth + 1, open, close);
        lemma_open_found(t, p, depth - 1, open, close);
    }
}

/// A pair found is a pair: the opening character, and after it the closing one.
proof fn lemma_pair_found(t: Seq<u8>, at: int, open: char, close: char)
    requires
        valid_utf8(t),
        text::bound(t, at),
    ensures
        scan::enclosing_pair(t, at, open, close) matches Some((s, e)) ==> 0 <= s < e < t.len()
            && text::bound(t, s) && text::bound(t, e) && text::char_at(t, s) == Some(open)
            && text::char_at(t, e) == Some(close),
{
    lemma_open_found(t, at, 0, open, close);
    let start = if text::char_at(t, at) == Some(open) {
        Some(at)
    } else {
        scan::open_before(t, at, 0, open, close)
    };
    if let Some(s) = start {
        text::lemma_next(t, s);
        lemma_close_found(t, text::next(t, s), 0, open, close);
    }
}

proof fn lemma_next_open_found(t: Seq<u8>, i: int, limit: int, open: char, close: char)
    requires
        valid_utf8(t),
        text::bound(t, i),
        limit <= t.len(),
    ensures
        scan::next_open(t, i, limit, open, close) matches Some(s) ==> text::bound(t, s),
    decreases scan::gap(i, limit),
{
    if i < limit {
        text::lemma_next(t, i);
        lemma_next_open_found(t, text::next(t, i), limit, open, close);
    }
}

proof fn lemma_quotes_found(t: Seq<u8>, i: int, limit: int, at: int, quote: char)
    requires
        valid_utf8(t),
        text::bound(t, i),
        limit <= t.len(),
    ensures
        scan::quote_pair(t, i, limit, at, quote) matches Some((a, b)) ==> i <= a < b < limit
            && text::bound(t, a) && text::bound(t, b),
    decreases scan::gap(i, limit),
{
    scan::lemma_next_quote(t, i, limit, quote);
    if let Some(a) = scan::next_quote(t, i, limit, quote) {
        text::lemma_next(t, a);
        scan::lemma_next_quote(t, text::next(t, a), limit, quote);
        if let Some(b) = scan::next_quote(t, text::next(t, a), limit, quote) {
            text::lemma_next(t, b);
            if at > b {
                lemma_quotes_found(t, text::next(t, b), limit, at, quote);
            }
        }
    }
}

/// Quotes do not nest: a count makes no difference to them.
pub proof fn quotes_ignore_counts(
    t: Seq<u8>,
    at: int,
    scope: ObjectScope,
    quote: char,
    a: int,
    b: int,
)
    ensures
        object_extent(t, at, scope, TextObject::Quoted(quote), a) == object_extent(
            t,
            at,
            scope,
            TextObject::Quoted(quote),
            b,
        ),
{
    reveal(object_extent);
}

/// Around contains inner: wherever `i` selects an object, `a` selects one too, and
/// it covers what `i` selects. The one exception is a pair whose closing delimiter is
/// the carriage return of the terminator behind its opening one.
pub proof fn around_contains_inner(t: Seq<u8>, at: int, object: TextObject)
    requires
        valid_utf8(t),
        t.len() <= usize::MAX,
        text::bound(t, at),
        object matches TextObject::Delimited { open, close } ==> (pair_at_level(
            t,
            at,
            open,
            close,
            1,
        ) matches Some((a, b)) ==> !swallowed(t, a, b)),
    ensures
        object_extent(t, at, ObjectScope::Inner, object, 1) matches Some(inner) ==> object_extent(
            t,
            at,
            ObjectScope::Around,
            object,
            1,
        ) is Some && covers(
            object_extent(t, at, ObjectScope::Around, object, 1)->0,
            inner,
        ),
{
    if object_extent(t, at, ObjectScope::Inner, object, 1) is Some {
        lemma_around_contains(t, at, object);
    }
}

proof fn lemma_around_contains(t: Seq<u8>, at: int, object: TextObject)
    requires
        valid_utf8(t),
        t.len() <= usize::MAX,
        text::bound(t, at),
        object matches TextObject::Delimited { open, close } ==> (pair_at_level(
            t,
            at,
            open,
            close,
            1,
        ) matches Some((a, b)) ==> !swallowed(t, a, b)),
        object_extent(t, at, ObjectScope::Inner, object, 1) is Some,
    ensures
        object_extent(t, at, ObjectScope::Around, object, 1) is Some,
        covers(
            object_extent(t, at, ObjectScope::Around, object, 1)->0,
            object_extent(t, at, ObjectScope::Inner, object, 1)->0,
        ),
{
    reveal(object_extent);
    match object {
        TextObject::Word { big } => {
            let (a, b) = scan::word_run(t, at, big);
            if let Some(class) = scan::class_at(t, at, big) {
                scan::lemma_run_end_from(t, at, Run::Same { class, big });
            }
            scan::lemma_run_end_from(t, b, Run::Inline);
            lemma_run_start_before(t, a, Run::Inline);
        },
        TextObject::Delimited { open, close } => {
            lemma_pair_found(t, at, open, close);
            lemma_next_open_found(t, at, t.len() as int, open, close);
            if let Some(s) = scan::next_open(t, at, t.len() as int, open, close) {
                lemma_pair_found(t, s, open, close);
            }
            lemma_inside_law(t, pair_at_level(t, at, open, close, 1)->0);
        },
        TextObject::Quoted(quote) => {
            let row = text::row_of(t, at);
            text::lemma_row_of(t, at);
            text::lemma_rows(t, row);
            text::lemma_row_bounds(t, row);
            lemma_quotes_found(
                t,
                text::row_start(t, row),
                text::content_end(t, row),
                at,
                quote,
            );
            let pair = scan::enclosing_quotes(t, at, quote)->0;
            text::lemma_row_bytes(t, row, pair.0);
            lemma_inside_law(t, pair);
        },
        TextObject::Paragraph => {
            lemma_alike_below(t, alike_below(t, text::row_of(t, at), false), true);
        },
    }
}

proof fn lemma_next_quote_char(t: Seq<u8>, i: int, limit: int, quote: char)
    requires
        limit <= t.len(),
    ensures
        scan::next_quote(t, i, limit, quote) matches Some(p) ==> text::char_at(t, p) == Some(
            quote,
        ),
    decreases scan::gap(i, limit),
{
    if 0 <= i < limit && i < t.len() && text::char_at(t, i)->0 != quote {
        lemma_next_quote_char(t, text::next(t, i), limit, quote);
    }
}

proof fn lemma_quote_char(t: Seq<u8>, i: int, limit: int, at: int, quote: char)
    requires
        limit <= t.len(),
    ensures
        scan::quote_pair(t, i, limit, at, quote) matches Some((a, b)) ==> text::char_at(t, a)
            == Some(quote) && text::char_at(t, b) == Some(quote),
    decreases scan::gap(i, limit),
{
    lemma_next_quote_char(t, i, limit, quote);
    if let Some(a) = scan::next_quote(t, i, limit, quote) {
        lemma_next_quote_char(t, text::next(t, a), limit, quote);
        if let Some(b) = scan::next_quote(t, text::next(t, a), limit, quote) {
            if at > b && i < text::next(t, b) && i < limit {
                lemma_quote_char(t, text::next(t, b), limit, at, quote);
            }
        }
    }
}

} // verus!
