//! What entering, leaving and typing text promise.

use vstd::prelude::*;
use vstd::utf8::*;

use crate::aiming;
use crate::buffer;
use crate::command::{Command, InsertAt, Mode, Motion, VisualKind};
use crate::doing;
use crate::effect::Effect;
use crate::grapheme;
use crate::grapheme::Bound;
use crate::key::Key;
use crate::motion;
use crate::puts;
use crate::spans;
use crate::state;
use crate::state::{EditorState, Turn};
use crate::text;
use crate::words;

verus! {

/// `t` with `new` put in at `at`.
pub open spec fn with(t: Seq<u8>, at: int, new: Seq<u8>) -> Seq<u8> {
    t.take(at) + new + t.skip(at)
}

/// `i`, `a`, `I`, `A`, `o` and `O` begin insert mode where they say: at the cursor, past
/// the grapheme under it, where the text of the row begins, past its end, or on a new
/// row below or above it.
pub proof fn insert_mode_begins_where_the_key_says(
    s: EditorState,
    key: Key,
    at: InsertAt,
    count: Option<usize>,
) -> (e: int)
    requires
        s.wf(),
        s.mode == Mode::Normal,
        s.legal(),
        doing::completes(s, key, Command::EnterInsert(at), count),
    ensures
        aiming::even(s.text) ==> ({
            let t = s.text;
            let c = s.cursor;
            let row = text::row_of(t, c);
            let u = doing::after(s, key);
            let room = t.len() < buffer::MAX_LEN;
            &&& u.mode == Mode::Insert
            &&& u.register == s.register
            &&& match at {
                InsertAt::Cursor => u.text == t && u.cursor == c,
                InsertAt::After => u.text == t && u.cursor == e && spans::past(t, c, e),
                InsertAt::FirstNonBlank => u.text == t && aiming::leads(t, row, e) && u.cursor
                    == grapheme::clamped(t, e, Bound::OnChar),
                InsertAt::EndOfRow => u.text == t && u.cursor == text::content_end(t, row),
                InsertAt::RowBelow => if room {
                    let end = text::content_end(t, row);
                    u.text == with(t, end, seq![10u8]) && u.cursor == grapheme::clamped(
                        u.text,
                        end + 1,
                        Bound::PastEnd,
                    )
                } else {
                    u.text == t
                },
                InsertAt::RowAbove => if room {
                    let start = text::row_start(t, row);
                    u.text == with(t, start, seq![10u8]) && u.cursor == grapheme::clamped(
                        u.text,
                        start,
                        Bound::PastEnd,
                    )
                } else {
                    u.text == t
                },
            }
        }),
{
    if aiming::even(s.text) {
        doing::lemma_done(s, key, Command::EnterInsert(at), count);
        reveal(Turn::acted);
        reveal(Turn::insert_entered);
        reveal(Turn::insert_begun);
        let t = s.text;
        let row = text::row_of(t, s.cursor);
        let h = doing::opening(s, key).state.session_opened();
        let turn = doing::opening(s, key).to(h);
        text::lemma_row_of(t, s.cursor);
        text::lemma_rows(t, row);
        assert(grapheme::spaced(t, row));
        match at {
            InsertAt::Cursor => {
                grapheme::lemma_clamp_keeps(t, s.cursor, Bound::PastEnd);
                0
            },
            InsertAt::After => {
                let e = puts::lemma_stepped_right(h, 1, Bound::PastEnd);
                reveal(aiming::at);
                grapheme::lemma_clamp_keeps(t, e, Bound::PastEnd);
                e
            },
            InsertAt::FirstNonBlank => {
                aiming::lemma_leads(t, row);
                reveal(motion::aimed);
                let e = crate::scan::first_non_blank(t, row);
                assert(0 <= e) by {
                    reveal(aiming::leads);
                }
                spans::lemma_clamped(t, e, Bound::OnChar);
                let c = grapheme::clamped(t, e, Bound::OnChar);
                text::lemma_row_of(t, c);
                assert(grapheme::spaced(t, text::row_of(t, c)));
                grapheme::lemma_clamp_keeps(t, c, Bound::PastEnd);
                e
            },
            InsertAt::EndOfRow => {
                grapheme::lemma_row_ends_rest(t, row);
                let c = text::content_end(t, row);
                text::lemma_row_bytes(t, row, c);
                grapheme::lemma_clamp_keeps(t, c, Bound::PastEnd);
                0
            },
            InsertAt::RowBelow => {
                let end = text::content_end(t, row);
                spans::lemma_edited(turn, end, end, seq![10u8]);
                0
            },
            InsertAt::RowAbove => {
                let start = text::row_start(t, row);
                spans::lemma_edited(turn, start, start, seq![10u8]);
                0
            },
        }
    } else {
        0
    }
}

/// A character typed in insert mode stands before the cursor, and all else is as it was.
/// In replace mode it takes the place of the grapheme under the cursor.
pub proof fn typing_puts_a_character_before_the_cursor(
    s: EditorState,
    key: Key,
    ch: char,
    count: Option<usize>,
) -> (e: int)
    requires
        s.wf(),
        s.mode == Mode::Insert || s.mode == Mode::Replace,
        s.mode == Mode::Replace ==> s.legal(),
        doing::completes(s, key, Command::InsertText(ch), count),
    ensures
        s.mode == Mode::Replace ==> aiming::even(s.text) ==> spans::past(s.text, s.cursor, e),
        s.mode == Mode::Insert ==> e == s.cursor,
        s.mode == Mode::Insert || aiming::even(s.text) ==> ({
            let t = s.text;
            let u = doing::after(s, key);
            let new = encode_utf8(seq![ch]);
            &&& u.mode == s.mode
            &&& u.register == s.register
            &&& if t.len() - (e - s.cursor) + new.len() <= buffer::MAX_LEN {
                &&& u.text == t.take(s.cursor) + new + t.skip(e)
                &&& u.cursor == s.cursor + new.len()
            } else {
                u.text == t && u.cursor == s.cursor
            }
        }),
{
    doing::lemma_done(s, key, Command::InsertText(ch), count);
    reveal(Turn::acted);
    reveal(Turn::typed);
    let start = doing::opening(s, key);
    if s.mode == Mode::Insert {
        spans::lemma_edited(start, s.cursor, s.cursor, state::char_bytes(ch));
        text::lemma_encode_one(ch);
        text::lemma_char_width(ch);
        s.cursor
    } else if aiming::even(s.text) {
        let e = puts::lemma_stepped_right(start.state, 1, Bound::PastEnd);
        spans::lemma_edited(start, s.cursor, e, state::char_bytes(ch));
        text::lemma_encode_one(ch);
        text::lemma_char_width(ch);
        e
    } else {
        0
    }
}

/// `<CR>` typed breaks the row at the cursor, which goes to the start of the new row.
pub proof fn a_newline_typed_breaks_the_row(s: EditorState, key: Key, count: Option<usize>)
    requires
        s.wf(),
        s.text.len() < buffer::MAX_LEN,
        doing::completes(s, key, Command::InsertNewline, count),
    ensures
        doing::after(s, key).text == with(s.text, s.cursor, seq![10u8]),
        doing::after(s, key).cursor == s.cursor + 1,
        doing::after(s, key).mode == s.mode,
        doing::after(s, key).sticky == 0,
{
    doing::lemma_done(s, key, Command::InsertNewline, count);
    reveal(Turn::acted);
    reveal(Turn::newline_typed);
    spans::lemma_edited(doing::opening(s, key), s.cursor, s.cursor, seq![10u8]);
}

/// `<BS>` deletes the grapheme before the cursor, or, at the start of a row, the break
/// before it; at the start of the text it rings.
pub proof fn a_backspace_deletes_what_stands_before_the_cursor(
    s: EditorState,
    key: Key,
    count: Option<usize>,
) -> (a: int)
    requires
        s.wf(),
        s.legal(),
        doing::completes(s, key, Command::DeleteBack, count),
    ensures
        aiming::even(s.text) ==> ({
            let t = s.text;
            let c = s.cursor;
            let row = text::row_of(t, c);
            let u = doing::after(s, key);
            &&& if aiming::col(t, c) > 0 {
                aiming::at(t, row, aiming::col(t, c) - 1, a)
            } else if row > 0 {
                a == text::content_end(t, row - 1)
            } else {
                a == c
            }
            &&& if a == c {
                puts::rang(s, key)
            } else {
                &&& a < c
                &&& u.text == spans::cut(t, a, c)
                &&& u.cursor == a
                &&& u.mode == s.mode
                &&& u.register == s.register
            }
        }),
{
    if aiming::even(s.text) {
        doing::lemma_done(s, key, Command::DeleteBack, count);
        reveal(Turn::acted);
        reveal(Turn::deleted_back_to);
        let start = doing::opening(s, key);
        let h = start.state;
        let t = s.text;
        let row = text::row_of(t, s.cursor);
        text::lemma_row_of(t, s.cursor);
        assert(grapheme::spaced(t, row));
        let i = aiming::lemma_stop(t, s.cursor);
        let e = puts::lemma_stepped_left(h, 1, Bound::PastEnd);
        let v = grapheme::stops(t, row);
        if i > 0 {
            assert(v[0] < v[i]);
        }
        let a = h.back_one();
        if i == 0 && row > 0 {
            text::lemma_rows(t, row - 1);
        }
        spans::lemma_edited(start, a, s.cursor, Seq::empty());
        assert(t.take(a) + Seq::<u8>::empty() + t.skip(s.cursor) =~= spans::cut(t, a, s.cursor));
        assert(Seq::<Effect>::empty().push(Effect::Bell) =~= seq![Effect::Bell]);
        a
    } else {
        0
    }
}

/// `<C-w>` typed deletes back to where `b` would go.
pub proof fn a_word_is_deleted_back_to_its_beginning(
    s: EditorState,
    key: Key,
    count: Option<usize>,
) -> (p: int)
    requires
        s.wf(),
        doing::completes(s, key, Command::DeleteWordBack, count),
    ensures
        words::words_back(s.text, s.cursor, false, 1, p),
        aiming::even(s.text) ==> ({
            let a = grapheme::clamped(s.text, p, Bound::PastEnd);
            let u = doing::after(s, key);
            if a >= s.cursor {
                puts::rang(s, key)
            } else {
                &&& u.text == spans::cut(s.text, a, s.cursor)
                &&& u.cursor == a
                &&& u.mode == s.mode
                &&& u.register == s.register
            }
        }),
{
    doing::lemma_done(s, key, Command::DeleteWordBack, count);
    reveal(Turn::acted);
    reveal(Turn::word_deleted_back);
    reveal(Turn::deleted_back_to);
    reveal(motion::aimed);
    let start = doing::opening(s, key);
    let t = s.text;
    words::lemma_words_back(t, s.cursor, false, 1);
    let p = motion::word_steps(t, s.cursor, motion::WordMove::Backward, false, 1);
    if aiming::even(t) {
        spans::lemma_clamped(t, p, Bound::PastEnd);
        let a = grapheme::clamped(t, p, Bound::PastEnd);
        if a < s.cursor {
            spans::lemma_edited(start, a, s.cursor, Seq::empty());
            assert(t.take(a) + Seq::<u8>::empty() + t.skip(s.cursor) =~= spans::cut(
                t,
                a,
                s.cursor,
            ));
        }
        assert(Seq::<Effect>::empty().push(Effect::Bell) =~= seq![Effect::Bell]);
    }
    p
}

/// `<Esc>` in insert or replace mode goes back to normal mode, and one grapheme left
/// where there is one on the row.
pub proof fn leaving_insert_mode_steps_left(s: EditorState, key: Key, count: Option<usize>)
    requires
        s.wf(),
        s.legal(),
        s.mode == Mode::Insert || s.mode == Mode::Replace,
        doing::completes(s, key, Command::EnterNormal, count),
    ensures
        ({
            let u = doing::after(s, key);
            &&& u.mode == Mode::Normal
            &&& u.anchor is None
            &&& u.text == s.text
            &&& u.register == s.register
            &&& aiming::even(s.text) ==> aiming::at(
                s.text,
                text::row_of(s.text, s.cursor),
                aiming::most(aiming::col(s.text, s.cursor) - 1, 0),
                u.cursor,
            )
        }),
{
    doing::lemma_done(s, key, Command::EnterNormal, count);
    reveal(Turn::acted);
    reveal(Turn::normal_entered);
    let t = s.text;
    if aiming::even(t) {
        let h = doing::opening(s, key).state.session_closed();
        let row = text::row_of(t, s.cursor);
        text::lemma_row_of(t, s.cursor);
        assert(grapheme::spaced(t, row));
        let i = aiming::lemma_stop(t, s.cursor);
        let e = puts::lemma_stepped_left(h, 1, Bound::PastEnd);
        let v = grapheme::stops(t, row);
        let j = aiming::most(i - 1, 0);
        aiming::lemma_at(t, row, j);
        aiming::lemma_steps_left(t, row, i, Bound::PastEnd, 1);
        grapheme::lemma_stop_rests(t, row, j, Bound::OnChar);
        grapheme::lemma_clamp_keeps(t, v[j] as int, Bound::OnChar);
        grapheme::lemma_stop_rests(t, row, j, Bound::PastEnd);
        grapheme::lemma_clamp_keeps(t, v[j] as int, Bound::PastEnd);
        reveal(motion::aimed);
    }
}

// ---------------------------------------------------------------------------
// selections
// ---------------------------------------------------------------------------

/// `v` and `V` begin a selection at the cursor, or end one of their own kind.
pub proof fn a_selection_begins_at_the_cursor(
    s: EditorState,
    key: Key,
    kind: VisualKind,
    count: Option<usize>,
)
    requires
        s.wf(),
        doing::completes(s, key, Command::EnterVisual(kind), count),
    ensures
        ({
            let u = doing::after(s, key);
            &&& u.text == s.text
            &&& u.register == s.register
            &&& if s.mode == Mode::Visual(kind) {
                u.mode == Mode::Normal && u.anchor is None
            } else {
                u.mode == Mode::Visual(kind) && u.anchor == Some(s.cursor as usize)
            }
        }),
{
    doing::lemma_done(s, key, Command::EnterVisual(kind), count);
    reveal(Turn::acted);
    reveal(Turn::visual_entered);
}

/// A motion in visual mode leaves the other end of the selection, and the mode, where
/// they were.
pub proof fn a_motion_moves_one_end_of_a_selection(
    s: EditorState,
    key: Key,
    motion: Motion<Seq<char>>,
    count: Option<usize>,
)
    requires
        s.wf(),
        doing::completes(s, key, Command::Move(motion), count),
    ensures
        doing::after(s, key).anchor == s.anchor,
        doing::after(s, key).mode == s.mode,
        doing::after(s, key).register == s.register,
        doing::after(s, key).text == s.text,
{
    doing::lemma_done(s, key, Command::Move(motion), count);
    reveal(Turn::acted);
    reveal(Turn::moved);
}

/// A selection by characters runs from the one end to past the grapheme at the other,
/// whichever comes first; one by rows covers the rows of both ends and all between.
pub proof fn a_selection_covers_both_its_ends(s: EditorState)
    requires
        s.wf(),
        s.legal(),
    ensures
        (s.mode == Mode::Visual(VisualKind::Char) && s.anchor is Some && grapheme::rests(
            s.text,
            s.anchor->0 as int,
            Bound::PastEnd,
        ) && aiming::even(s.text)) ==> ({
            let a = s.anchor->0 as int;
            let lo = aiming::least(a, s.cursor);
            let hi = aiming::most(a, s.cursor);
            s.selection() matches Some((x, y)) && x == lo && spans::past(s.text, hi, y)
        }),
        (s.mode == Mode::Visual(VisualKind::Line) && s.anchor is Some && text::bound(
            s.text,
            s.anchor->0 as int,
        )) ==> ({
            let a = s.anchor->0 as int;
            let first = text::row_of(s.text, aiming::least(a, s.cursor));
            let last = text::row_of(s.text, aiming::most(a, s.cursor));
            s.selection() matches Some((x, y)) && x <= y && spans::cut(s.text, x, y)
                == spans::rows_gone(s.text, first, last)
        }),
        !(s.mode is Visual) || s.anchor is None ==> s.selection() is None,
{
    let t = s.text;
    if s.mode is Visual && s.anchor is Some {
        let a = s.anchor->0 as int;
        let lo = aiming::least(a, s.cursor);
        let hi = aiming::most(a, s.cursor);
        grapheme::lemma_rests(t, a, Bound::PastEnd);
        if s.mode == Mode::Visual(VisualKind::Char) && grapheme::rests(t, a, Bound::PastEnd)
            && aiming::even(t) {
            spans::lemma_past(s, lo, hi);
        }
        if s.mode == Mode::Visual(VisualKind::Line) && text::bound(t, a) {
            text::lemma_row_of(t, lo);
            text::lemma_row_of(t, hi);
            text::lemma_newlines_mono(t, lo, hi);
            let first = text::row_of(t, lo);
            let last = text::row_of(t, hi);
            spans::lemma_gone(t, first, last);
        }
    }
}

} // verus!
