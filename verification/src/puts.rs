//! What the commands that change a few characters or put text back promise: `x`, `X`,
//! `r`, `~`, `J`, `p` and `P`.

use vstd::prelude::*;
use vstd::utf8::*;

use crate::aiming;
use crate::buffer;
use crate::command::{Command, Mode, Motion, Operator};
use crate::doing;
use crate::effect::Effect;
use crate::grapheme;
use crate::grapheme::Bound;
use crate::key::Key;
use crate::motion;
use crate::spans;
use crate::state;
use crate::state::{EditorState, Turn};
use crate::text;

verus! {

/// The `j`th piece of `k` bytes of `s`.
pub open spec fn piece(s: Seq<u8>, k: int, j: int) -> Seq<u8> {
    s.subrange(j * k, j * k + k)
}

/// Whether `block` is `unit` over and over, `n` times.
pub open spec fn repeats(block: Seq<u8>, unit: Seq<u8>, n: int) -> bool {
    &&& block.len() == n * unit.len()
    &&& forall|j: int| 0 <= j < n ==> #[trigger] piece(block, unit.len() as int, j) == unit
}

pub(crate) proof fn lemma_copies(unit: Seq<u8>, n: int)
    requires
        n >= 0,
    ensures
        repeats(state::copies(unit, n), unit, n),
    decreases n,
{
    let k = unit.len() as int;
    if n > 0 {
        lemma_copies(unit, n - 1);
        let less = state::copies(unit, n - 1);
        let block = state::copies(unit, n);
        assert((n - 1) * k + k == n * k) by (nonlinear_arith);
        assert forall|j: int| 0 <= j < n implies #[trigger] piece(block, k, j) == unit by {
            assert(0 <= j * k) by (nonlinear_arith)
                requires
                    0 <= j,
                    0 <= k,
            ;
            if j < n - 1 {
                assert(j * k + k <= (n - 1) * k) by (nonlinear_arith)
                    requires
                        j < n - 1,
                        0 <= k,
                ;
                assert(piece(block, k, j) =~= piece(less, k, j));
            } else {
                assert(piece(block, k, j) =~= unit);
            }
        }
    } else {
        assert(0 * k == 0);
    }
}

/// Whether nothing an eye could see has changed, but that the bell rang.
pub open spec fn rang(s: EditorState, key: Key) -> bool {
    let u = doing::after(s, key);
    &&& u.text == s.text
    &&& u.cursor == s.cursor
    &&& u.register == s.register
    &&& u.mode == s.mode
    &&& doing::told(s, key) == seq![Effect::Bell]
}

/// Steps right of a place of rest.
pub(crate) proof fn lemma_stepped_right(s: EditorState, n: usize, bound: Bound) -> (e: int)
    requires
        aiming::even(s.text),
        s.legal(),
        0 <= s.cursor <= s.text.len(),
        n >= 1,
    ensures
        e == s.stepped(s.cursor, Motion::Right, n, bound),
        aiming::at(
            s.text,
            text::row_of(s.text, s.cursor),
            aiming::least(
                aiming::col(s.text, s.cursor) + n,
                aiming::last_col(s.text, text::row_of(s.text, s.cursor), bound),
            ),
            e,
        ),
        0 <= e <= s.text.len(),
        text::bound(s.text, e),
        bound == Bound::PastEnd ==> s.cursor <= e,
        bound == Bound::PastEnd && aiming::col(s.text, s.cursor) < aiming::width(
            s.text,
            text::row_of(s.text, s.cursor),
        ) ==> s.cursor < e,
        bound == Bound::PastEnd && aiming::col(s.text, s.cursor) >= aiming::width(
            s.text,
            text::row_of(s.text, s.cursor),
        ) ==> s.cursor == e,
{
    let t = s.text;
    reveal(motion::aimed);
    reveal(aiming::at);
    text::lemma_row_of(t, s.cursor);
    let row = text::row_of(t, s.cursor);
    assert(grapheme::spaced(t, row));
    let i = aiming::lemma_stop(t, s.cursor);
    aiming::lemma_steps_right(t, row, i, bound, n as int);
    let v = grapheme::stops(t, row);
    let j = aiming::least(i + n, aiming::last_col(t, row, bound));
    aiming::lemma_at(t, row, j);
    grapheme::lemma_stop_rests(t, row, j, bound);
    grapheme::lemma_clamp_keeps(t, v[j] as int, bound);
    if i < j {
        assert(v[i] < v[j]);
    }
    v[j] as int
}

/// Steps left of a place of rest.
pub(crate) proof fn lemma_stepped_left(s: EditorState, n: usize, bound: Bound) -> (e: int)
    requires
        aiming::even(s.text),
        s.legal(),
        0 <= s.cursor <= s.text.len(),
        n >= 1,
    ensures
        e == s.stepped(s.cursor, Motion::Left, n, bound),
        aiming::at(
            s.text,
            text::row_of(s.text, s.cursor),
            aiming::least(
                aiming::most(aiming::col(s.text, s.cursor) - n, 0),
                aiming::last_col(s.text, text::row_of(s.text, s.cursor), bound),
            ),
            e,
        ),
        0 <= e <= s.cursor,
        text::bound(s.text, e),
        aiming::col(s.text, s.cursor) > 0 ==> e < s.cursor,
        aiming::col(s.text, s.cursor) == 0 ==> e == s.cursor,
{
    let t = s.text;
    reveal(motion::aimed);
    reveal(aiming::at);
    text::lemma_row_of(t, s.cursor);
    let row = text::row_of(t, s.cursor);
    assert(grapheme::spaced(t, row));
    let i = aiming::lemma_stop(t, s.cursor);
    aiming::lemma_steps_left(t, row, i, bound, n as int);
    let v = grapheme::stops(t, row);
    let j = aiming::least(aiming::most(i - n, 0), aiming::last_col(t, row, bound));
    aiming::lemma_at(t, row, j);
    grapheme::lemma_stop_rests(t, row, j, bound);
    grapheme::lemma_clamp_keeps(t, v[j] as int, bound);
    if j < i {
        assert(v[j] < v[i]);
    }
    v[j] as int
}

/// `x` deletes as many graphemes as its count says from the cursor on, and `X` as many
/// before it, as far as the row goes; both keep what they deleted. Where there is
/// nothing to delete they ring.
pub proof fn x_deletes_graphemes_of_the_row(
    s: EditorState,
    key: Key,
    before: bool,
    count: Option<usize>,
) -> (e: int)
    requires
        s.wf(),
        s.mode == Mode::Normal,
        s.legal(),
        doing::times(count) >= 1,
        doing::completes(s, key, Command::DeleteChar { before }, count),
    ensures
        aiming::even(s.text) ==> ({
            let t = s.text;
            let c = s.cursor;
            let row = text::row_of(t, c);
            let n = doing::times(count);
            let u = doing::after(s, key);
            let (a, b) = if before {
                (e, c)
            } else {
                (c, e)
            };
            &&& if before {
                aiming::at(
                    t,
                    row,
                    aiming::least(
                        aiming::most(aiming::col(t, c) - n, 0),
                        aiming::last_col(t, row, Bound::OnChar),
                    ),
                    e,
                )
            } else {
                aiming::at(t, row, aiming::least(aiming::col(t, c) + n, aiming::width(t, row)), e)
            }
            &&& a <= b
            &&& if a == b {
                rang(s, key)
            } else {
                &&& u.text == spans::cut(t, a, b)
                &&& u.register.text == t.subrange(a, b)
                &&& !u.register.linewise
                &&& u.mode == s.mode
                &&& u.cursor == grapheme::clamped(u.text, a, Bound::OnChar)
            }
        }),
{
    if aiming::even(s.text) {
        doing::lemma_done(s, key, Command::DeleteChar { before }, count);
        reveal(Turn::acted);
        reveal(Turn::char_deleted);
        let start = doing::opening(s, key);
        let h = start.state;
        let n = doing::times(count) as usize;
        let e = if before {
            lemma_stepped_left(h, n, Bound::OnChar)
        } else {
            lemma_stepped_right(h, n, Bound::PastEnd)
        };
        let (a, b) = if before {
            (e, s.cursor)
        } else {
            (s.cursor, e)
        };
        let y = start.to(h.yanked(motion::Extent::Chars { start: a, end: b }));
        spans::lemma_edited(y, a, b, Seq::empty());
        assert(s.text.take(a) + Seq::<u8>::empty() + s.text.skip(b) =~= spans::cut(s.text, a, b));
        assert(Seq::<Effect>::empty().push(Effect::Bell) =~= seq![Effect::Bell]);
        e
    } else {
        0
    }
}

/// `r` puts as many of the character as its count says in the place of as many
/// graphemes from the cursor on, as far as the row goes.
pub proof fn r_replaces_graphemes_of_the_row(
    s: EditorState,
    key: Key,
    ch: char,
    count: Option<usize>,
) -> (r: (int, Seq<u8>))
    requires
        s.wf(),
        s.mode == Mode::Normal,
        s.legal(),
        doing::times(count) >= 1,
        doing::completes(s, key, Command::ReplaceChar(ch), count),
    ensures
        aiming::even(s.text) ==> ({
            let t = s.text;
            let c = s.cursor;
            let row = text::row_of(t, c);
            let n = doing::times(count);
            let u = doing::after(s, key);
            let (e, new) = r;
            &&& aiming::at(t, row, aiming::least(aiming::col(t, c) + n, aiming::width(t, row)), e)
            &&& repeats(new, encode_utf8(seq![ch]), n)
            &&& u.register == s.register
            &&& u.mode == s.mode
            &&& u.cursor == c
            &&& if e == c {
                rang(s, key)
            } else if t.len() - (e - c) + new.len() <= buffer::MAX_LEN {
                u.text == t.take(c) + new + t.skip(e)
            } else {
                u.text == t
            }
        }),
{
    if aiming::even(s.text) {
        doing::lemma_done(s, key, Command::ReplaceChar(ch), count);
        reveal(Turn::acted);
        reveal(Turn::char_replaced);
        let start = doing::opening(s, key);
        let n = doing::times(count) as usize;
        let e = lemma_stepped_right(start.state, n, Bound::PastEnd);
        let new = state::copies(state::char_bytes(ch), n as int);
        lemma_copies(state::char_bytes(ch), n as int);
        spans::lemma_edited(start, s.cursor, e, new);
        assert(Seq::<Effect>::empty().push(Effect::Bell) =~= seq![Effect::Bell]);
        (e, new)
    } else {
        (0, Seq::empty())
    }
}

/// `~` swaps the case of as many graphemes as its count says from the cursor on, as far
/// as the row goes, and moves past them, but leaves the column that `j` and `k` aim for.
pub proof fn tilde_swaps_the_case_of_graphemes(
    s: EditorState,
    key: Key,
    count: Option<usize>,
) -> (e: int)
    requires
        s.wf(),
        s.mode == Mode::Normal,
        s.legal(),
        doing::times(count) >= 1,
        doing::completes(s, key, Command::SwapCase, count),
    ensures
        aiming::even(s.text) ==> ({
            let t = s.text;
            let c = s.cursor;
            let row = text::row_of(t, c);
            let n = doing::times(count);
            let u = doing::after(s, key);
            let new = encode_utf8(
                spans::all_cased(decode_utf8(t.subrange(c, e)), Operator::SwapCase),
            );
            &&& aiming::at(t, row, aiming::least(aiming::col(t, c) + n, aiming::width(t, row)), e)
            &&& u.register == s.register
            &&& u.mode == s.mode
            &&& u.sticky == s.sticky
            &&& if e == c {
                rang(s, key)
            } else if t.len() - (e - c) + new.len() <= buffer::MAX_LEN {
                &&& u.text == t.take(c) + new + t.skip(e)
                &&& u.cursor == grapheme::clamped(u.text, e, Bound::OnChar)
            } else {
                u.text == t
            }
        }),
{
    if aiming::even(s.text) {
        doing::lemma_done(s, key, Command::SwapCase, count);
        reveal(Turn::acted);
        reveal(Turn::case_swapped);
        let start = doing::opening(s, key);
        let n = doing::times(count) as usize;
        let e = lemma_stepped_right(start.state, n, Bound::PastEnd);
        spans::lemma_cased(decode_utf8(s.text.subrange(s.cursor, e)), Operator::SwapCase);
        spans::lemma_edited(
            start,
            s.cursor,
            e,
            state::recased_bytes(s.text, s.cursor, e, Operator::SwapCase),
        );
        assert(Seq::<Effect>::empty().push(Effect::Bell) =~= seq![Effect::Bell]);
        e
    } else {
        0
    }
}

/// `p` and `P` put what the register holds as often as their count says: bytes past the
/// grapheme under the cursor or before it. The text grows by as many times the bytes,
/// and the cursor ends on the last of them.
pub proof fn p_puts_bytes_as_often_as_its_count(
    s: EditorState,
    key: Key,
    before: bool,
    count: Option<usize>,
) -> (r: (int, Seq<u8>))
    requires
        s.wf(),
        s.mode == Mode::Normal,
        s.legal(),
        doing::times(count) >= 1,
        !s.register.linewise,
        doing::completes(s, key, Command::Put { before }, count),
    ensures
        ({
            let t = s.text;
            let n = doing::times(count);
            let u = doing::after(s, key);
            let (at, block) = r;
            &&& u.register == s.register
            &&& u.mode == s.mode
            &&& repeats(block, s.register.text, n)
            &&& if s.register.text.len() == 0 || t.len() + n * s.register.text.len()
                > buffer::MAX_LEN {
                rang(s, key)
            } else {
                &&& before || aiming::even(t) ==> {
                    &&& u.text.len() == t.len() + n * s.register.text.len()
                    &&& u.text == t.take(at) + block + t.skip(at)
                    &&& if before {
                        at == s.cursor
                    } else {
                        spans::past(t, s.cursor, at)
                    }
                    &&& u.cursor == grapheme::clamped(
                        u.text,
                        at + block.len() - 1,
                        Bound::OnChar,
                    )
                }
            }
        }),
{
    doing::lemma_done(s, key, Command::Put { before }, count);
    reveal(Turn::acted);
    reveal(Turn::put);
    let start = doing::opening(s, key);
    let h = start.state;
    let n = doing::times(count) as usize;
    let block = state::copies(h.register.text, n as int);
    lemma_copies(h.register.text, n as int);
    assert(Seq::<Effect>::empty().push(Effect::Bell) =~= seq![Effect::Bell]);
    let at = if before {
        s.cursor
    } else {
        h.stepped(h.cursor, Motion::Right, 1, Bound::PastEnd)
    };
    if !before && aiming::even(s.text) {
        let e = lemma_stepped_right(h, 1, Bound::PastEnd);
    }
    if before || aiming::even(s.text) {
        spans::lemma_edited(start, at, at, block);
    }
    if s.register.text.len() > 0 {
        assert(n * s.register.text.len() > 0) by (nonlinear_arith)
            requires
                n >= 1,
                s.register.text.len() > 0,
        ;
    }
    (at, block)
}

} // verus!
