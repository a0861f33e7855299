//! What the commands over whole rows promise: `p` and `P` of rows, `J`, and the shifts.

use vstd::prelude::*;
use vstd::utf8::*;

use crate::aiming;
use crate::buffer;
use crate::command::{Command, Mode};
use crate::doing;
use crate::effect::Effect;
use crate::grapheme;
use crate::grapheme::Bound;
use crate::key::Key;
use crate::motion;
use crate::puts;
use crate::scan;
use crate::spans;
use crate::state;
use crate::state::{EditorState, Turn};
use crate::text;
use crate::unicode;

verus! {

/// `block` ended by a line feed.
pub open spec fn ended(block: Seq<u8>) -> Seq<u8> {
    if block.len() > 0 && block.last() == 10u8 {
        block
    } else {
        block.push(10u8)
    }
}

/// Rows that were yanked are put as often as the count says: above the row of the cursor,
/// or below it. Below a last row that no line feed ends, a line feed is put first and the
/// last one of the rows is left out.
pub proof fn p_puts_rows_as_often_as_its_count(
    s: EditorState,
    key: Key,
    before: bool,
    count: Option<usize>,
) -> (r: (Seq<u8>, int))
    requires
        s.wf(),
        s.mode == Mode::Normal,
        s.register.linewise,
        doing::completes(s, key, Command::Put { before }, count),
        doing::times(count) >= 1,
    ensures
        ({
            let t = s.text;
            let row = text::row_of(t, s.cursor);
            let u = doing::after(s, key);
            let (block, e) = r;
            let rows = ended(block);
            let bare = !before && row + 1 == text::rows(t) && t.len() > 0 && t.last() != 10u8;
            let at = if before {
                text::row_start(t, row)
            } else if row + 1 < text::rows(t) {
                text::row_start(t, row + 1)
            } else {
                t.len() as int
            };
            let home = if bare {
                at + 1
            } else {
                at
            };
            if s.register.text.len() == 0 || t.len() + rows.len() > buffer::MAX_LEN {
                puts::rang(s, key)
            } else {
                &&& u.text == if bare {
                    t + seq![10u8] + rows.drop_last()
                } else {
                    t.take(at) + rows + t.skip(at)
                }
                &&& u.register == s.register
                &&& u.mode == s.mode
                &&& u.cursor == grapheme::clamped(u.text, e, Bound::OnChar)
                &&& valid_utf8(u.text) ==> aiming::leads(u.text, text::row_of(u.text, home), e)
            }
        }),
        s.register.text.len() > 0 ==> puts::repeats(r.0, s.register.text, doing::times(count)),
{
    let t = s.text;
    let row = text::row_of(t, s.cursor);
    let n = doing::times(count);
    let block = state::copies(s.register.text, n);
    doing::lemma_done(s, key, Command::Put { before }, count);
    reveal(Turn::acted);
    reveal(Turn::put);
    assert(Seq::<Effect>::empty().push(Effect::Bell) =~= seq![Effect::Bell]);
    text::lemma_row_of(t, s.cursor);
    text::lemma_rows(t, row);
    puts::lemma_copies(s.register.text, n);
    let turn = doing::opening(s, key);
    let a = text::row_start(t, row);
    let b = text::row_end(t, row);
    let rows = ended(block);
    let bare = !before && b == t.len() && t.len() > 0 && t.last() != 10u8;
    if row + 1 < text::rows(t) {
        assert(b == text::row_start(t, row + 1));
        if b == t.len() {
            text::lemma_rows(t, row + 1);
            assert(t.last() == 10u8);
        }
    }
    let at = if before {
        a
    } else {
        b
    };
    let new = if bare {
        seq![10u8] + rows.drop_last()
    } else {
        rows
    };
    spans::lemma_edited(turn, at, at, new);
    assert(new.len() == rows.len());
    let u = turn.edited(at, at, new).state;
    if s.register.text.len() > 0 && t.len() + rows.len() <= buffer::MAX_LEN {
        if bare {
            assert(t.take(at) + new + t.skip(at) =~= t + seq![10u8] + rows.drop_last());
        }
        let home = if bare {
            at + 1
        } else {
            at
        };
        let home_row = text::row_of(u.text, home);
        text::lemma_row_of(u.text, home);
        if valid_utf8(u.text) {
            aiming::lemma_leads(u.text, home_row);
        }
        reveal(motion::aimed);
        let e = scan::first_non_blank(u.text, home_row);
        (block, e)
    } else {
        (block, 0)
    }
}

// ---------------------------------------------------------------------------
// joins
// ---------------------------------------------------------------------------

/// Whether `p` is where the text of the row below is taken up: past the blanks that row
/// `row + 1` begins with, its line feed among them.
pub open spec fn taken_up(t: Seq<u8>, row: int, p: int) -> bool {
    let start = text::row_start(t, row + 1);
    let end = text::row_end(t, row + 1);
    &&& start <= p <= end
    &&& text::bound(t, p)
    &&& p < end ==> !unicode::is_space(text::char_at(t, p)->0)
    &&& forall|j: int|
        start <= j < p && #[trigger] text::bound(t, j) ==> unicode::is_space(
            text::char_at(t, j)->0,
        )
}

/// Row `row` and the row below it joined: one space between them, or nothing where either
/// has no text.
pub open spec fn joined(t: Seq<u8>, row: int, p: int) -> Seq<u8> {
    let end = text::content_end(t, row);
    let gap = if end == text::row_start(t, row) || p == text::row_end(t, row + 1) {
        Seq::empty()
    } else {
        seq![32u8]
    };
    t.take(end) + gap + t.skip(p)
}

spec fn sound(a: Turn) -> bool {
    &&& valid_utf8(a.state.text)
    &&& a.state.text.len() <= buffer::MAX_LEN
    &&& 0 <= a.state.cursor <= a.state.text.len()
}

spec fn like(a: Turn, b: Turn) -> bool {
    a.state.text == b.state.text && a.state.cursor == b.state.cursor
}

proof fn lemma_row_joined(a: Turn, row: int) -> (p: int)
    requires
        sound(a),
        row == text::row_of(a.state.text, a.state.cursor),
        row + 1 < text::rows(a.state.text),
    ensures
        sound(a.row_joined(row)),
        taken_up(a.state.text, row, p),
        a.row_joined(row).state.text == joined(a.state.text, row, p),
        a.row_joined(row).state.cursor == text::content_end(a.state.text, row),
        p == scan::skip_space(
            a.state.text,
            text::row_start(a.state.text, row + 1),
            text::row_end(a.state.text, row + 1),
        ),
        a.row_joined(row).state.register == a.state.register,
        a.row_joined(row).state.mode == a.state.mode,
{
    let t = a.state.text;
    reveal(Turn::row_joined);
    text::lemma_row_of(t, a.state.cursor);
    text::lemma_rows(t, row);
    text::lemma_rows(t, row + 1);
    text::lemma_row_bounds(t, row);
    text::lemma_row_bounds(t, row + 1);
    let start = text::row_start(t, row + 1);
    let fin = text::row_end(t, row + 1);
    aiming::lemma_skip_space(t, start, fin);
    let p = scan::skip_space(t, start, fin);
    let end = text::content_end(t, row);
    let gap = if p == fin || end == text::row_start(t, row) {
        Seq::<u8>::empty()
    } else {
        seq![32u8]
    };
    spans::lemma_edited(a, end, p, gap);
    text::lemma_ascii_bytes(' ');
    text::lemma_encode_one(' ');
    encode_utf8_valid_utf8(seq![' ']);
    assert(gap.len() > 0 ==> gap =~= encode_utf8(seq![' ']));
    text::lemma_splice(t, end, p, gap);
    assert(text::splice(t, end, p, gap) =~= t.take(end) + gap + t.skip(p));
    p
}

proof fn lemma_like(a: Turn, b: Turn, n: int)
    requires
        sound(a),
        like(a, b),
    ensures
        like(a.rows_joined(n), b.rows_joined(n)),
        sound(a.rows_joined(n)),
    decreases n,
{
    let row = text::row_of(a.state.text, a.state.cursor);
    if n > 0 && row + 1 < text::rows(a.state.text) {
        let p = lemma_row_joined(a, row);
        let q = lemma_row_joined(b, row);
        lemma_like(a.row_joined(row), b.row_joined(row), n - 1);
    }
}

proof fn lemma_one_more(a: Turn, n: int)
    requires
        sound(a),
        n >= 0,
    ensures
        like(a.rows_joined(n + 1), a.rows_joined(n).rows_joined(1)),
    decreases n,
{
    let row = text::row_of(a.state.text, a.state.cursor);
    if n == 0 {
        lemma_like(a, a.rows_joined(0), 1);
    } else if row + 1 < text::rows(a.state.text) {
        let p = lemma_row_joined(a, row);
        lemma_one_more(a.row_joined(row), n - 1);
    }
}

/// `J` joins the row below to the row of the cursor, and leaves the cursor between them.
/// It rings on the last row.
pub proof fn j_joins_the_row_below(s: EditorState, key: Key, count: Option<usize>) -> (p: int)
    requires
        s.wf(),
        doing::completes(s, key, Command::JoinRows, count),
        doing::times(count) <= 2,
    ensures
        ({
            let t = s.text;
            let row = text::row_of(t, s.cursor);
            let u = doing::after(s, key);
            if row + 1 < text::rows(t) {
                &&& taken_up(t, row, p)
                &&& u.text == joined(t, row, p)
                &&& u.cursor == text::content_end(t, row)
                &&& u.register == s.register
                &&& u.mode == s.mode
            } else {
                puts::rang(s, key)
            }
        }),
{
    doing::lemma_done(s, key, Command::JoinRows, count);
    reveal(Turn::acted);
    assert(Seq::<Effect>::empty().push(Effect::Bell) =~= seq![Effect::Bell]);
    let turn = doing::opening(s, key);
    let row = text::row_of(s.text, s.cursor);
    if row + 1 < text::rows(s.text) {
        let p = lemma_row_joined(turn, row);
        assert(turn.rows_joined(1) == turn.row_joined(row).rows_joined(0));
        p
    } else {
        0
    }
}

/// `J` over one row more joins that row to what it made of the others: a count of
/// `n + 1` does what a count of `n` and then one `J` do.
pub proof fn j_joins_row_after_row(
    s: EditorState,
    more: Key,
    fewer: Key,
    last: Key,
    n: usize,
    one: Option<usize>,
)
    requires
        s.wf(),
        2 <= n < usize::MAX,
        doing::completes(s, more, Command::JoinRows, Some((n + 1) as usize)),
        doing::completes(s, fewer, Command::JoinRows, Some(n)),
        doing::completes(doing::after(s, fewer), last, Command::JoinRows, one),
        doing::times(one) <= 2,
    ensures
        doing::after(s, more).text == doing::after(doing::after(s, fewer), last).text,
        doing::after(s, more).cursor == doing::after(doing::after(s, fewer), last).cursor,
{
    let u = doing::after(s, fewer);
    doing::lemma_done(s, more, Command::JoinRows, Some((n + 1) as usize));
    doing::lemma_done(s, fewer, Command::JoinRows, Some(n));
    doing::lemma_done(u, last, Command::JoinRows, one);
    reveal(Turn::acted);
    let a = doing::opening(s, more);
    let b = doing::opening(s, fewer);
    let c = doing::opening(u, last);
    lemma_one_more(a, n - 1);
    lemma_like(a, b, n - 1);
    lemma_like(a.rows_joined(n - 1), c, 1);
}

} // verus!
