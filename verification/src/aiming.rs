//! Where motions lead: what a motion on its own and an operator over it have in common.
//!
//! A row holds so many graphemes; a column is how many of them stand before a place.

use vstd::prelude::*;
use vstd::utf8::*;

use crate::command::{Command, Find, Motion};
use crate::doing;
use crate::finding;
use crate::grapheme;
use crate::grapheme::Bound;
use crate::host::Viewport;
use crate::key::Key;
use crate::motion;
use crate::scan;
use crate::state::{EditorState, Turn};
use crate::text;
use crate::unicode;
use crate::words;

verus! {

/// Whether every row of `t` is cut into graphemes from its start to its end, as the rows
/// of every buffer are.
pub open spec fn even(t: Seq<u8>) -> bool {
    forall|row: int| 0 <= row < text::rows(t) ==> #[trigger] grapheme::spaced(t, row)
}

/// How many graphemes row `row` holds.
pub open spec fn width(t: Seq<u8>, row: int) -> int {
    grapheme::stops(t, row).len() - 1
}

/// How many grapheme boundaries of its row stand before `p`.
pub open spec fn col(t: Seq<u8>, p: int) -> int {
    let v = grapheme::stops(t, text::row_of(t, p));
    doing::tally(|i: int| v[i] < p, 0, v.len() as int)
}

/// The last column of row `row`: on its last grapheme, or past it.
pub open spec fn last_col(t: Seq<u8>, row: int, bound: Bound) -> int {
    if bound == Bound::PastEnd {
        width(t, row)
    } else if width(t, row) > 0 {
        width(t, row) - 1
    } else {
        0
    }
}

/// The smaller of two.
pub open spec fn least(a: int, b: int) -> int {
    if a <= b {
        a
    } else {
        b
    }
}

/// The greater of two.
pub open spec fn most(a: int, b: int) -> int {
    if a <= b {
        b
    } else {
        a
    }
}

/// Whether `p` is a grapheme boundary at column `c` of row `row`.
#[verifier::opaque]
pub open spec fn at(t: Seq<u8>, row: int, c: int, p: int) -> bool {
    &&& 0 <= p <= t.len()
    &&& text::row_of(t, p) == row
    &&& col(t, p) == c
    &&& grapheme::rests(t, p, Bound::PastEnd)
}

/// Whether `p` is where the text of row `row` begins: its first character that is not
/// blank, or its start where all are.
#[verifier::opaque]
pub open spec fn leads(t: Seq<u8>, row: int, p: int) -> bool {
    let a = text::row_start(t, row);
    let e = text::content_end(t, row);
    ||| {
        &&& a <= p < e
        &&& text::bound(t, p)
        &&& !unicode::is_space(text::char_at(t, p)->0)
        &&& forall|j: int|
            a <= j < p && #[trigger] text::bound(t, j) ==> unicode::is_space(
                text::char_at(t, j)->0,
            )
    }
    ||| {
        &&& p == a
        &&& forall|j: int|
            a <= j < e && #[trigger] text::bound(t, j) ==> unicode::is_space(
                text::char_at(t, j)->0,
            )
    }
}

/// The row that a count names, counted from one, as far as there are rows.
pub open spec fn named_row(t: Seq<u8>, n: int) -> int {
    least(most(n - 1, 0), text::rows(t) - 1)
}

/// The first and the last row of the text on the screen.
pub open spec fn screen(t: Seq<u8>, v: Viewport) -> (int, int) {
    (
        least(v.top_row as int, text::rows(t) - 1),
        least(v.top_row + v.height - 1, text::rows(t) - 1),
    )
}

/// Whether `motion` from the cursor leads to `p`, where the cursor may go as far as
/// `bound`.
pub open spec fn goal(
    s: EditorState,
    motion: Motion<Seq<char>>,
    count: Option<usize>,
    bound: Bound,
    p: int,
) -> bool {
    let t = s.text;
    let from = s.cursor;
    let n = doing::times(count);
    let row = text::row_of(t, from);
    let last = text::rows(t) - 1;
    match motion {
        Motion::Left => grapheme::rests(t, from, Bound::PastEnd) ==> at(
            t,
            row,
            least(most(col(t, from) - n, 0), last_col(t, row, bound)),
            p,
        ),
        Motion::Right => grapheme::rests(t, from, Bound::PastEnd) ==> at(
            t,
            row,
            least(col(t, from) + n, last_col(t, row, bound)),
            p,
        ),
        Motion::Down => {
            let r = least(row + n, last);
            at(t, r, least(s.sticky, last_col(t, r, bound)), p)
        },
        Motion::Up => {
            let r = most(row - n, 0);
            at(t, r, least(s.sticky, last_col(t, r, bound)), p)
        },
        Motion::FirstColumn => text::starts_row(t, row, p),
        Motion::FirstNonBlank => leads(t, row, p),
        Motion::LastColumn => {
            let r = least(row + n - 1, last);
            at(t, r, last_col(t, r, bound), p)
        },
        Motion::WordForward { big } => words::words_on(t, from, big, n, p),
        Motion::WordBackward { big } => words::words_back(t, from, big, n, p),
        Motion::WordEnd { big } => words::word_ends_on(t, from, big, n, p),
        Motion::Find(find) => exists|q: int| #[trigger]
            finding::nth(t, from, from, find.target, find.backward, n, q) && p
                == finding::short_of(t, q, find.backward, find.till),
        Motion::GotoRow => leads(
            t,
            match count {
                Some(k) => named_row(t, k as int),
                None => last,
            },
            p,
        ),
        Motion::GotoFirstRow => leads(
            t,
            match count {
                Some(k) => named_row(t, k as int),
                None => 0,
            },
            p,
        ),
        Motion::ScreenTop => s.viewport.height > 0 && leads(
            t,
            least(s.viewport.top_row + n - 1, last),
            p,
        ),
        Motion::ScreenBottom => s.viewport.height > 0 && leads(
            t,
            most(screen(t, s.viewport).1 - (n - 1), 0),
            p,
        ),
        Motion::ScreenMiddle => s.viewport.height > 0 && exists|r: int| {
            &&& 0 <= 2 * r - screen(t, s.viewport).0 - screen(t, s.viewport).1 + 1 <= 1
            &&& #[trigger] leads(t, r, p)
        },
        _ => true,
    }
}

/// A boundary of a row is at its column.
pub(crate) proof fn lemma_at(t: Seq<u8>, row: int, i: int)
    requires
        0 <= row < text::rows(t),
        grapheme::spaced(t, row),
        0 <= i <= width(t, row),
    ensures
        at(t, row, i, grapheme::stops(t, row)[i] as int),
        text::row_of(t, grapheme::stops(t, row)[i] as int) == row,
        grapheme::column(t, grapheme::stops(t, row)[i] as int) == i,
{
    reveal(at);
    let v = grapheme::stops(t, row);
    let p = v[i] as int;
    grapheme::lemma_stop_rests(t, row, i, Bound::PastEnd);
    let f = |j: int| v[j] < p;
    assert forall|j: int| i <= j < v.len() implies !#[trigger] f(j) by {
        if i < j {
            assert(v[i] < v[j]);
        }
    }
    doing::lemma_tally_none(f, i, v.len() as int);
    lemma_all(f, i, v);
    doing::lemma_tally_split(f, 0, i, v.len() as int);
    reveal(grapheme::column);
    grapheme::lemma_col_in(v, p, v.len() as int);
    text::lemma_rows(t, row);
    let c = grapheme::col_in(v, p, v.len() as int);
    if c < i {
        assert(v[i] > p);
    }
    if i < c {
        if i > 0 {
            assert(v[0] < v[i]);
        }
        assert(v[i] < v[c]);
    }
}

proof fn lemma_all(f: spec_fn(int) -> bool, i: int, v: Seq<usize>)
    requires
        0 <= i < v.len(),
        f == (|j: int| v[j] < v[i]),
        forall|a: int, b: int| 0 <= a < b < v.len() ==> v[a] < v[b],
    ensures
        doing::tally(f, 0, i) == i,
{
    lemma_all_below(f, i, i, v);
}

proof fn lemma_all_below(f: spec_fn(int) -> bool, i: int, k: int, v: Seq<usize>)
    requires
        0 <= k <= i < v.len(),
        f == (|j: int| v[j] < v[i]),
        forall|a: int, b: int| 0 <= a < b < v.len() ==> v[a] < v[b],
    ensures
        doing::tally(f, 0, k) == k,
    decreases k,
{
    if k > 0 {
        lemma_all_below(f, i, k - 1, v);
        assert(f(k - 1));
    }
}

/// The boundary that a place at rest is.
pub(crate) proof fn lemma_stop(t: Seq<u8>, p: int) -> (i: int)
    requires
        0 <= p <= t.len(),
        grapheme::spaced(t, text::row_of(t, p)),
        grapheme::rests(t, p, Bound::PastEnd),
    ensures
        0 <= i <= width(t, text::row_of(t, p)),
        grapheme::stops(t, text::row_of(t, p))[i] == p,
        col(t, p) == i,
        grapheme::column(t, p) == i,
{
    reveal(grapheme::rests);
    reveal(at);
    text::lemma_row_of(t, p);
    let row = text::row_of(t, p);
    let v = grapheme::stops(t, row);
    let i = choose|i: int|
        0 <= i <= grapheme::top_col(v.len() as int, Bound::PastEnd) && i < v.len()
            && #[trigger] v[i] == p;
    lemma_at(t, row, i);
    i
}

pub(crate) proof fn lemma_steps_left(t: Seq<u8>, row: int, i: int, bound: Bound, n: int)
    requires
        0 <= row < text::rows(t),
        grapheme::spaced(t, row),
        0 <= i <= width(t, row),
        n >= 1,
    ensures
        grapheme::steps_left(t, grapheme::stops(t, row)[i] as int, bound, n)
            == grapheme::stops(t, row)[least(most(i - n, 0), last_col(t, row, bound))],
    decreases n,
{
    lemma_at(t, row, i);
    let v = grapheme::stops(t, row);
    let j = least(most(i - 1, 0), last_col(t, row, bound));
    assert(grapheme::left_of(t, v[i] as int, bound) == v[j]);
    if n > 1 {
        lemma_steps_left(t, row, j, bound, n - 1);
    } else {
        assert(grapheme::steps_left(t, v[j] as int, bound, 0) == v[j]);
    }
}

pub(crate) proof fn lemma_steps_right(t: Seq<u8>, row: int, i: int, bound: Bound, n: int)
    requires
        0 <= row < text::rows(t),
        grapheme::spaced(t, row),
        0 <= i <= width(t, row),
        n >= 1,
    ensures
        grapheme::steps_right(t, grapheme::stops(t, row)[i] as int, bound, n)
            == grapheme::stops(t, row)[least(i + n, last_col(t, row, bound))],
    decreases n,
{
    lemma_at(t, row, i);
    let v = grapheme::stops(t, row);
    let j = least(i + 1, last_col(t, row, bound));
    assert(grapheme::right_of(t, v[i] as int, bound) == v[j]);
    if n > 1 {
        lemma_steps_right(t, row, j, bound, n - 1);
    } else {
        assert(grapheme::steps_right(t, v[j] as int, bound, 0) == v[j]);
    }
}

/// Past whitespace.
pub(crate) proof fn lemma_skip_space(t: Seq<u8>, i: int, limit: int)
    requires
        valid_utf8(t),
        text::bound(t, i),
        text::bound(t, limit),
        i <= limit,
    ensures
        ({
            let p = scan::skip_space(t, i, limit);
            &&& i <= p <= limit
            &&& text::bound(t, p)
            &&& p < limit ==> !unicode::is_space(text::char_at(t, p)->0)
            &&& forall|j: int|
                i <= j < p && #[trigger] text::bound(t, j) ==> unicode::is_space(
                    text::char_at(t, j)->0,
                )
        }),
    decreases limit - i,
{
    if i < limit && unicode::is_space(text::char_at(t, i)->0) {
        text::lemma_next(t, i);
        if text::next(t, i) > limit {
            assert(text::bound(t, limit));
        }
        lemma_skip_space(t, text::next(t, i), limit);
    }
}

/// `^`.
pub(crate) proof fn lemma_leads(t: Seq<u8>, row: int)
    requires
        valid_utf8(t),
        0 <= row < text::rows(t),
    ensures
        leads(t, row, scan::first_non_blank(t, row)),
{
    reveal(leads);
    text::lemma_rows(t, row);
    text::lemma_row_bounds(t, row);
    lemma_skip_space(t, text::row_start(t, row), text::content_end(t, row));
}

/// What a motion aims at is its goal, and one that aims at nothing is one that can
/// fail.
#[verifier::rlimit(60)]
#[verifier::spinoff_prover]
pub(crate) proof fn lemma_goal(
    s: EditorState,
    motion: Motion<Seq<char>>,
    count: Option<usize>,
    bound: Bound,
)
    requires
        valid_utf8(s.text),
        text::bound(s.text, s.cursor),
        even(s.text),
        doing::times(count) >= 1,
        s.sticky >= 0,
    ensures
        match motion::aimed(
            s.text,
            s.cursor,
            motion,
            count,
            s.sticky,
            s.last_find,
            s.last_search,
            s.viewport,
            bound,
        ) {
            Some(p) => goal(s, motion, count, bound, p),
            None => match motion {
                Motion::Find(find) => finding::supply(
                    s.text,
                    s.cursor,
                    s.cursor,
                    find.target,
                    find.backward,
                ) < doing::times(count),
                Motion::RepeatFind { .. }
                | Motion::Search { .. }
                | Motion::RepeatSearch { .. }
                | Motion::MatchPair
                | Motion::Mark { .. } => true,
                Motion::ScreenTop | Motion::ScreenMiddle | Motion::ScreenBottom => {
                    s.viewport.height == 0
                },
                _ => false,
            },
        },
{
    reveal(motion::aimed);
    let t = s.text;
    let from = s.cursor;
    let n = doing::times(count);
    let row = text::row_of(t, from);
    let last = text::rows(t) - 1;
    text::lemma_row_of(t, from);
    assert(grapheme::spaced(t, row));
    match motion {
        Motion::Left => {
            if grapheme::rests(t, from, Bound::PastEnd) {
                let i = lemma_stop(t, from);
                lemma_steps_left(t, row, i, bound, n);
                lemma_at(t, row, least(most(i - n, 0), last_col(t, row, bound)));
            }
        },
        Motion::Right => {
            if grapheme::rests(t, from, Bound::PastEnd) {
                let i = lemma_stop(t, from);
                lemma_steps_right(t, row, i, bound, n);
                lemma_at(t, row, least(i + n, last_col(t, row, bound)));
            }
        },
        Motion::Down => {
            let r = least(row + n, last);
            assert(grapheme::spaced(t, r));
            lemma_at(t, r, least(s.sticky, last_col(t, r, bound)));
        },
        Motion::Up => {
            let r = most(row - n, 0);
            assert(grapheme::spaced(t, r));
            lemma_at(t, r, least(s.sticky, last_col(t, r, bound)));
        },
        Motion::FirstColumn => {
            text::lemma_row_start(t, row);
        },
        Motion::FirstNonBlank => {
            lemma_leads(t, row);
        },
        Motion::LastColumn => {
            let r = least(row + n - 1, last);
            assert(grapheme::spaced(t, r));
            lemma_top_fits(t, r, bound);
            lemma_at(t, r, last_col(t, r, bound));
        },
        Motion::WordForward { big } => {
            words::lemma_words_on(t, from, big, n);
        },
        Motion::WordBackward { big } => {
            words::lemma_words_back(t, from, big, n);
        },
        Motion::WordEnd { big } => {
            words::lemma_word_ends_on(t, from, big, n);
        },
        Motion::Find(find) => {
            let q = finding::lemma_found(t, from, find, n, false);
        },
        Motion::GotoRow => {
            lemma_leads(
                t,
                match count {
                    Some(k) => named_row(t, k as int),
                    None => last,
                },
            );
        },
        Motion::GotoFirstRow => {
            lemma_leads(
                t,
                match count {
                    Some(k) => named_row(t, k as int),
                    None => 0,
                },
            );
        },
        Motion::ScreenTop => {
            lemma_leads(t, least(s.viewport.top_row + n - 1, last));
        },
        Motion::ScreenBottom => {
            if s.viewport.height > 0 {
                lemma_leads(t, most(screen(t, s.viewport).1 - (n - 1), 0));
            }
        },
        Motion::ScreenMiddle => {
            if s.viewport.height > 0 {
                let (top, bottom) = screen(t, s.viewport);
                let r = top + (bottom - top) / 2;
                lemma_leads(t, r);
            }
        },
        _ => {},
    }
}

/// A row has fewer columns than the column that stays at the end of rows.
proof fn lemma_top_fits(t: Seq<u8>, row: int, bound: Bound)
    requires
        0 <= row < text::rows(t),
        grapheme::spaced(t, row),
    ensures
        last_col(t, row, bound) <= grapheme::STICKY_END,
{
    let v = grapheme::stops(t, row);
    lemma_climbs(v, v.len() - 1);
    assert(v.last() <= usize::MAX);
}

proof fn lemma_climbs(v: Seq<usize>, i: int)
    requires
        0 <= i < v.len(),
        forall|a: int, b: int| 0 <= a < b < v.len() ==> v[a] < v[b],
    ensures
        i <= v[i],
    decreases i,
{
    if i > 0 {
        lemma_climbs(v, i - 1);
        assert(v[i - 1] < v[i]);
    }
}

/// A motion on its own takes the cursor to its goal, or to the place next to it where
/// the cursor may rest, and changes nothing in the text.
pub proof fn a_motion_reaches_its_goal(
    s: EditorState,
    key: Key,
    motion: Motion<Seq<char>>,
    count: Option<usize>,
) -> (p: int)
    requires
        s.wf(),
        s.sticky >= 0,
        doing::times(count) >= 1,
        doing::completes(s, key, Command::Move(motion), count),
        match motion {
            Motion::RepeatFind { .. }
            | Motion::Search { .. }
            | Motion::RepeatSearch { .. }
            | Motion::MatchPair
            | Motion::ToOffset { .. }
            | Motion::Mark { .. } => false,
            _ => true,
        },
    ensures
        doing::after(s, key).text == s.text,
        even(s.text) ==> {
            ||| {
                &&& goal(s, motion, count, doing::resting(s.mode), p)
                &&& doing::after(s, key).cursor == grapheme::clamped(
                    s.text,
                    p,
                    doing::resting(s.mode),
                )
            }
            ||| {
                &&& doing::after(s, key).cursor == s.cursor
                &&& match motion {
                    Motion::Find(find) => finding::supply(
                        s.text,
                        s.cursor,
                        s.cursor,
                        find.target,
                        find.backward,
                    ) < doing::times(count),
                    Motion::ScreenTop | Motion::ScreenMiddle | Motion::ScreenBottom => {
                        s.viewport.height == 0
                    },
                    _ => false,
                }
            }
        },
{
    doing::lemma_done(s, key, Command::Move(motion), count);
    reveal(Turn::acted);
    reveal(Turn::moved);
    let bound = doing::resting(s.mode);
    if even(s.text) {
        lemma_goal(s, motion, count, bound);
    }
    match motion::aimed(
        s.text,
        s.cursor,
        motion,
        count,
        s.sticky,
        s.last_find,
        s.last_search,
        s.viewport,
        bound,
    ) {
        Some(p) => p,
        None => 0,
    }
}

} // verus!
