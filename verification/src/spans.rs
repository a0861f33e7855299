//! What the operators promise: what of the text they take, change or copy.

use vstd::prelude::*;
use vstd::utf8::*;

use crate::aiming;
use crate::buffer;
use crate::command::{Command, Mode, Motion, Operator, Target};
use crate::doing;
use crate::finding;
use crate::grapheme;
use crate::grapheme::Bound;
use crate::key::Key;
use crate::motion;
use crate::motion::Extent;
use crate::recase;
use crate::state;
use crate::state::{EditorState, Turn};
use crate::text;
use crate::unicode;

verus! {

// ---------------------------------------------------------------------------
// what an operator does to what it covers
// ---------------------------------------------------------------------------

/// `t` without `a..b`.
pub open spec fn cut(t: Seq<u8>, a: int, b: int) -> Seq<u8> {
    t.take(a) + t.skip(b)
}

/// What a case-changing operator makes of one character.
pub open spec fn cased(c: char, operator: Operator) -> Seq<char> {
    match operator {
        Operator::Lower => unicode::lower_of(c),
        Operator::Upper => unicode::upper_of(c),
        _ => {
            let other = if unicode::is_upper(c) {
                unicode::lower_of(c)
            } else if unicode::is_lower(c) {
                unicode::upper_of(c)
            } else {
                seq![c]
            };
            seq![if other.len() > 0 {
                other[0]
            } else {
                c
            }]
        },
    }
}

/// `s` with every character cased.
pub open spec fn all_cased(s: Seq<char>, operator: Operator) -> Seq<char>
    decreases s.len(),
{
    if s.len() == 0 {
        Seq::empty()
    } else {
        all_cased(s.drop_last(), operator) + cased(s.last(), operator)
    }
}

/// The rows `first..=last` gone: with their line feeds, or, where the last row is among
/// them, with the line feed before them.
pub open spec fn rows_gone(t: Seq<u8>, first: int, last: int) -> Seq<u8> {
    let a = text::row_start(t, first);
    if last + 1 < text::rows(t) {
        cut(t, a, text::row_start(t, last + 1))
    } else if first > 0 {
        t.take(a - 1)
    } else {
        Seq::empty()
    }
}

/// The bytes of the rows `first..=last`, each ended by a line feed.
pub open spec fn whole_rows(t: Seq<u8>, first: int, last: int) -> Seq<u8> {
    let a = text::row_start(t, first);
    if last + 1 < text::rows(t) {
        t.subrange(a, text::row_start(t, last + 1))
    } else {
        let tail = t.skip(a);
        if tail.len() > 0 && tail.last() == 10u8 {
            tail
        } else {
            tail.push(10u8)
        }
    }
}

/// Whether `u` is what an operator makes of `s` over the bytes `a..b`.
pub open spec fn bytes_worked(
    s: EditorState,
    operator: Operator,
    a: int,
    b: int,
    u: EditorState,
) -> bool {
    let t = s.text;
    match operator {
        Operator::Delete => if a == b {
            u.text == t && u.register == s.register && u.mode == s.mode && u.cursor == s.cursor
        } else {
            &&& u.text == cut(t, a, b)
            &&& u.register.text == t.subrange(a, b)
            &&& !u.register.linewise
            &&& u.mode == s.mode
            &&& u.cursor == grapheme::clamped(u.text, a, doing::resting(s.mode))
        },
        Operator::Change => {
            &&& u.text == cut(t, a, b)
            &&& u.register.text == t.subrange(a, b)
            &&& !u.register.linewise
            &&& u.mode == Mode::Insert
            &&& u.cursor == grapheme::clamped(u.text, a, Bound::PastEnd)
        },
        Operator::Yank => if a == b {
            u.text == t && u.register == s.register && u.mode == s.mode && u.cursor == s.cursor
        } else {
            &&& u.text == t
            &&& u.register.text == t.subrange(a, b)
            &&& !u.register.linewise
            &&& u.mode == s.mode
            &&& u.cursor == grapheme::clamped(t, a, doing::resting(s.mode))
        },
        Operator::Lower | Operator::Upper | Operator::SwapCase => {
            let new = encode_utf8(all_cased(decode_utf8(t.subrange(a, b)), operator));
            &&& u.register == s.register
            &&& u.mode == s.mode
            &&& a < b ==> u.cursor == grapheme::clamped(u.text, a, doing::resting(s.mode))
            &&& if t.len() - (b - a) + new.len() <= buffer::MAX_LEN {
                u.text == t.take(a) + new + t.skip(b)
            } else {
                u.text == t
            }
        },
        _ => true,
    }
}

/// Whether `u` is what an operator makes of `s` over the rows `first..=last`.
pub open spec fn rows_worked(
    s: EditorState,
    operator: Operator,
    first: int,
    last: int,
    u: EditorState,
) -> bool {
    let t = s.text;
    let a = text::row_start(t, first);
    let c = text::content_end(t, last);
    match operator {
        Operator::Delete => if t.len() == 0 {
            u.text == t && u.register == s.register && u.mode == s.mode && u.cursor == s.cursor
        } else {
            &&& u.text == rows_gone(t, first, last)
            &&& u.register.text == whole_rows(t, first, last)
            &&& u.register.linewise
            &&& u.mode == s.mode
        },
        Operator::Change => {
            &&& u.text == cut(t, a, c)
            &&& u.register.text == whole_rows(t, first, last)
            &&& u.register.linewise
            &&& u.mode == Mode::Insert
            &&& u.cursor == grapheme::clamped(u.text, a, Bound::PastEnd)
        },
        Operator::Yank => if t.len() == 0 {
            u.text == t && u.register == s.register && u.mode == s.mode && u.cursor == s.cursor
        } else {
            &&& u.text == t
            &&& u.register.text == whole_rows(t, first, last)
            &&& u.register.linewise
            &&& u.mode == s.mode
            &&& u.cursor == grapheme::clamped(t, a, doing::resting(s.mode))
        },
        Operator::Lower | Operator::Upper | Operator::SwapCase => {
            let new = encode_utf8(all_cased(decode_utf8(t.subrange(a, c)), operator));
            &&& u.register == s.register
            &&& u.mode == s.mode
            &&& if t.len() - (c - a) + new.len() <= buffer::MAX_LEN {
                u.text == t.take(a) + new + t.skip(c)
            } else {
                u.text == t
            }
        },
        _ => true,
    }
}

pub(crate) proof fn lemma_cased(s: Seq<char>, operator: Operator)
    requires
        operator is Lower || operator is Upper || operator is SwapCase,
    ensures
        recase::recased(s, operator) == all_cased(s, operator),
    decreases s.len(),
{
    if s.len() > 0 {
        lemma_cased(s.drop_last(), operator);
        if operator is SwapCase {
            let f = |c: char| recase::swapped(c);
            assert(s.map_values(f) =~= s.drop_last().map_values(f) + seq![f(s.last())]);
            assert(cased(s.last(), operator) =~= seq![f(s.last())]);
        }
    } else if operator is SwapCase {
        assert(recase::recased(s, operator) =~= Seq::<char>::empty());
    }
}

pub(crate) proof fn lemma_edited(a: Turn, from: int, to: int, new: Seq<u8>)
    requires
        0 <= from <= to <= a.state.text.len(),
        a.state.text.len() <= buffer::MAX_LEN,
    ensures
        ({
            let u = a.edited(from, to, new).state;
            let s = a.state;
            &&& s.text.len() - (to - from) + new.len() <= buffer::MAX_LEN ==> u.text == s.text.take(
                from,
            ) + new + s.text.skip(to)
            &&& s.text.len() - (to - from) + new.len() > buffer::MAX_LEN ==> u.text == s.text
            &&& u.register == s.register
            &&& u.mode == s.mode
            &&& u.cursor == s.cursor
            &&& u.anchor == s.anchor
            &&& u.insert_group == s.insert_group
            &&& u.indent == s.indent
            &&& u.sticky == s.sticky
            &&& u.viewport == s.viewport
        }),
{
    let s = a.state;
    assert(s.text.take(from) =~= s.text.subrange(0, from));
    assert(s.text.skip(to) =~= s.text.subrange(to, s.text.len() as int));
    if from == to && new.len() == 0 {
        assert(s.text =~= s.text.take(from) + new + s.text.skip(to));
    }
}

/// What rows leave behind.
pub(crate) proof fn lemma_gone(t: Seq<u8>, first: int, last: int)
    requires
        0 <= first <= last < text::rows(t),
    ensures
        ({
            let (x, y) = motion::rows_deleted(t, first, last);
            0 <= x <= y <= t.len() && cut(t, x, y) == rows_gone(t, first, last)
        }),
{
    text::lemma_rows(t, first);
    text::lemma_rows(t, last);
    if first > 0 {
        text::lemma_rows(t, first - 1);
    }
    if first < last {
        text::lemma_row_start_mono(t, first, last);
    }
    let (x, y) = motion::rows_deleted(t, first, last);
    assert(cut(t, x, y) =~= rows_gone(t, first, last));
}

/// An operator over bytes.
pub(crate) proof fn lemma_bytes_worked(a: Turn, operator: Operator, from: int, to: int, amount: usize)
    requires
        a.state.mode == Mode::Normal,
        0 <= from <= to <= a.state.text.len(),
        a.state.text.len() <= buffer::MAX_LEN,
        !operator.shifts(),
    ensures
        bytes_worked(
            a.state,
            operator,
            from,
            to,
            a.operated(operator, Extent::Chars { start: from, end: to }, amount).state,
        ),
{
    reveal(Turn::operated);
    reveal(Turn::performed);
    let e = Extent::Chars { start: from, end: to };
    let s = if operator.fills() {
        a.state.yanked(e)
    } else {
        a.state
    };
    let t = s.text;
    lemma_edited(a.to(s), from, to, Seq::empty());
    assert(t.take(from) + Seq::<u8>::empty() + t.skip(to) =~= cut(t, from, to));
    assert(cut(t, from, from) =~= t);
    if operator is Lower || operator is Upper || operator is SwapCase {
        lemma_cased(decode_utf8(t.subrange(from, to)), operator);
        lemma_edited(a.to(s), from, to, state::recased_bytes(t, from, to, operator));
        if from == to {
            assert(t.subrange(from, to) =~= Seq::<u8>::empty());
            assert(decode_utf8(Seq::<u8>::empty()) =~= Seq::<char>::empty());
            let none = all_cased(decode_utf8(t.subrange(from, to)), operator);
            assert(none =~= Seq::<char>::empty());
            assert(encode_utf8(none) =~= Seq::<u8>::empty());
            assert(t =~= t.take(from) + Seq::<u8>::empty() + t.skip(to));
        }
    }
}

/// An operator over rows.
#[verifier::rlimit(80)]
#[verifier::spinoff_prover]
pub(crate) proof fn lemma_rows_worked(a: Turn, operator: Operator, first: int, last: int, amount: usize)
    requires
        a.state.mode == Mode::Normal,
        0 <= first <= last < text::rows(a.state.text),
        a.state.text.len() <= buffer::MAX_LEN,
        !operator.shifts(),
    ensures
        rows_worked(
            a.state,
            operator,
            first,
            last,
            a.operated(operator, Extent::Lines { first, last }, amount).state,
        ),
{
    reveal(Turn::operated);
    reveal(Turn::performed);
    let e = Extent::Lines { first, last };
    let s = if operator.fills() {
        a.state.yanked(e)
    } else {
        a.state
    };
    let t = s.text;
    text::lemma_rows(t, first);
    text::lemma_rows(t, last);
    if first > 0 {
        text::lemma_rows(t, first - 1);
    }
    if first < last {
        text::lemma_row_start_mono(t, first, last);
    }
    let (d, f) = e.deleted(t);
    let from = text::row_start(t, first);
    let to = text::content_end(t, last);
    lemma_edited(a.to(s), d, f, Seq::empty());
    lemma_edited(a.to(s), from, to, Seq::empty());
    assert(t.take(d) + Seq::<u8>::empty() + t.skip(f) =~= rows_gone(t, first, last));
    assert(t.take(from) + Seq::<u8>::empty() + t.skip(to) =~= cut(t, from, to));
    if last + 1 >= text::rows(t) {
        assert(t.subrange(from, text::row_end(t, last)) =~= t.skip(from));
    }
    if operator is Lower || operator is Upper || operator is SwapCase {
        lemma_cased(decode_utf8(t.subrange(from, to)), operator);
        lemma_edited(a.to(s), from, to, state::recased_bytes(t, from, to, operator));
        if t.len() == 0 {
            assert(t.subrange(from, to) =~= Seq::<u8>::empty());
            assert(decode_utf8(Seq::<u8>::empty()) =~= Seq::<char>::empty());
            let none = all_cased(decode_utf8(t.subrange(from, to)), operator);
            assert(none =~= Seq::<char>::empty());
            assert(encode_utf8(none) =~= Seq::<u8>::empty());
            assert(t =~= t.take(from) + Seq::<u8>::empty() + t.skip(to));
        }
    }
}

// ---------------------------------------------------------------------------
// what an operator covers
// ---------------------------------------------------------------------------

/// The line feeds of `t`.
pub open spec fn feeds(t: Seq<u8>) -> int {
    doing::tally(|i: int| t[i] == 10u8, 0, t.len() as int)
}

pub(crate) proof fn lemma_feeds(t: Seq<u8>, k: int)
    requires
        0 <= k <= t.len(),
    ensures
        doing::tally(|i: int| t[i] == 10u8, 0, k) == text::newlines(t, k),
    decreases k,
{
    if k > 0 {
        lemma_feeds(t, k - 1);
    }
}

/// The line feeds of a text are those before a place and those behind it.
pub(crate) proof fn lemma_feeds_split(t: Seq<u8>, a: int)
    requires
        0 <= a <= t.len(),
    ensures
        feeds(t) == feeds(t.take(a)) + feeds(t.skip(a)),
        feeds(t.take(a)) == text::newlines(t, a),
        feeds(t) == text::newlines(t, t.len() as int),
{
    let n = t.len() as int;
    let head = t.take(a);
    let tail = t.skip(a);
    assert(t =~= head + tail);
    text::lemma_newlines_prefix(head, t, a);
    text::lemma_newlines_concat(head, tail, n - a);
    lemma_feeds(t, n);
    lemma_feeds(head, a);
    lemma_feeds(tail, n - a);
}

pub(crate) proof fn lemma_feeds_joined(a: Seq<u8>, b: Seq<u8>)
    ensures
        feeds(a + b) == feeds(a) + feeds(b),
{
    lemma_feeds_split(a + b, a.len() as int);
    assert((a + b).take(a.len() as int) =~= a);
    assert((a + b).skip(a.len() as int) =~= b);
}

/// One line feed.
pub(crate) proof fn lemma_one_feed()
    ensures
        feeds(seq![10u8]) == 1,
        feeds(Seq::<u8>::empty()) == 0,
{
    lemma_feeds(seq![10u8], 1);
    reveal_with_fuel(text::newlines, 3);
}

/// Rows that go take their line feeds along: as many as there are rows, or one less
/// where nothing is left. Rows that are copied carry as many.
proof fn lemma_rows_counted(t: Seq<u8>, first: int, last: int)
    requires
        0 <= first <= last < text::rows(t),
    ensures
        feeds(t) - feeds(rows_gone(t, first, last)) == last - first + if first == 0 && last + 1
            == text::rows(t) {
            0int
        } else {
            1int
        },
        feeds(whole_rows(t, first, last)) == last - first + if first < last && last + 1
            == text::rows(t) && t.last() == 10u8 {
            0int
        } else {
            1int
        },
{
    let n = t.len() as int;
    let a = text::row_start(t, first);
    text::lemma_rows(t, first);
    text::lemma_row_start(t, first);
    lemma_one_feed();
    lemma_feeds_split(t, a);
    if last + 1 < text::rows(t) {
        let z = text::row_start(t, last + 1);
        text::lemma_rows(t, last + 1);
        text::lemma_row_start(t, last + 1);
        text::lemma_row_start_mono(t, first, last + 1);
        lemma_feeds_split(t, z);
        lemma_feeds_joined(t.take(a), t.skip(z));
        assert(t.take(z) =~= t.take(a) + t.subrange(a, z));
        lemma_feeds_joined(t.take(a), t.subrange(a, z));
    } else {
        let tail = t.skip(a);
        if first > 0 {
            assert(t.take(a) =~= t.take(a - 1) + seq![10u8]);
            lemma_feeds_joined(t.take(a - 1), seq![10u8]);
        }
        if tail.len() > 0 && tail.last() == 10u8 {
            if last == first {
                text::lemma_row_starts_at(t, n);
                text::lemma_row_start(t, last);
                text::lemma_starts_row_unique(t, last, a, n);
            }
        } else {
            assert(tail.push(10u8) =~= tail + seq![10u8]);
            lemma_feeds_joined(tail, seq![10u8]);
            if n > 0 && t.last() == 10u8 && first < last {
                text::lemma_row_start_mono(t, first, last);
                text::lemma_rows(t, last);
                assert(tail.last() == t.last());
            }
        }
    }
}

/// A doubled operator covers as many rows as its count says, from the cursor's row on,
/// as far as there are rows. `dd` takes as many line feeds out of the text, or one less
/// where nothing is left of it; `dd`, `cc` and `yy` copy the rows.
pub proof fn a_doubled_operator_covers_rows(
    s: EditorState,
    key: Key,
    operator: Operator,
    count: Option<usize>,
)
    requires
        s.wf(),
        s.mode == Mode::Normal,
        doing::times(count) >= 1,
        !operator.shifts(),
        doing::completes(s, key, Command::Operate { operator, target: Target::CurrentRow }, count),
    ensures
        ({
            let t = s.text;
            let row = text::row_of(t, s.cursor);
            let n = aiming::least(doing::times(count), text::rows(t) - row);
            let u = doing::after(s, key);
            &&& rows_worked(s, operator, row, row + n - 1, u)
            &&& operator is Delete && t.len() > 0 ==> feeds(t) - feeds(u.text) == if row == 0 && n
                == text::rows(t) {
                n - 1
            } else {
                n
            }
            &&& operator is Change ==> feeds(t) - feeds(u.text) == n - 1
            &&& operator.fills() && t.len() > 0 ==> feeds(u.register.text) == if n > 1 && row + n
                == text::rows(t) && t.last() == 10u8 {
                n - 1
            } else {
                n
            }
        }),
{
    doing::lemma_done(s, key, Command::Operate { operator, target: Target::CurrentRow }, count);
    let t = s.text;
    let row = text::row_of(t, s.cursor);
    let n = aiming::least(doing::times(count), text::rows(t) - row);
    text::lemma_row_of(t, s.cursor);
    let a = doing::opening(s, key);
    reveal(Turn::acted);
    reveal(Turn::operated_on);
    lemma_rows_worked(a, operator, row, row + n - 1, 1);
    lemma_rows_counted(t, row, row + n - 1);
    lemma_content_cut(t, row, row + n - 1);
}

/// Clearing rows takes the line feeds between them.
proof fn lemma_content_cut(t: Seq<u8>, first: int, last: int)
    requires
        0 <= first <= last < text::rows(t),
    ensures
        feeds(t) - feeds(cut(t, text::row_start(t, first), text::content_end(t, last))) == last
            - first,
{
    let a = text::row_start(t, first);
    let c = text::content_end(t, last);
    text::lemma_rows(t, first);
    text::lemma_rows(t, last);
    text::lemma_row_start(t, first);
    if first < last {
        text::lemma_row_start_mono(t, first, last);
    }
    text::lemma_row_bytes(t, last, c);
    lemma_feeds_split(t, a);
    lemma_feeds_split(t, c);
    lemma_feeds_joined(t.take(a), t.skip(c));
}

/// Whether an operator over `motion` acts on whole rows.
pub open spec fn by_rows(motion: Motion<Seq<char>>) -> bool {
    match motion {
        Motion::Up
        | Motion::Down
        | Motion::GotoRow
        | Motion::GotoFirstRow
        | Motion::ScreenTop
        | Motion::ScreenMiddle
        | Motion::ScreenBottom => true,
        _ => false,
    }
}

/// Whether an operator over `motion` takes the character it leads to along.
pub open spec fn takes_last(motion: Motion<Seq<char>>) -> bool {
    match motion {
        Motion::WordEnd { .. } | Motion::LastColumn => true,
        Motion::Find(find) => !find.backward,
        _ => false,
    }
}

/// The motion an operator goes by: to change up to the next word is to change up to the
/// end of this one.
pub open spec fn gone_by(operator: Operator, motion: Motion<Seq<char>>) -> Motion<Seq<char>> {
    match motion {
        Motion::WordForward { big } if operator is Change => Motion::WordEnd { big },
        _ => motion,
    }
}

/// Where the motion of an operator may lead: past the last character of a row, unless
/// the character it leads to is taken along.
pub open spec fn reach(motion: Motion<Seq<char>>) -> Bound {
    if takes_last(motion) {
        Bound::OnChar
    } else {
        Bound::PastEnd
    }
}

/// Whether `b` is past the grapheme at `p`, on its row.
pub open spec fn past(t: Seq<u8>, p: int, b: int) -> bool {
    let row = text::row_of(t, p);
    aiming::at(t, row, aiming::least(aiming::col(t, p) + 1, aiming::width(t, row)), b)
}

/// Whether what an operator over `motion` covers is what lies between the cursor and
/// `p`, where the motion leads: the rows of both and all between, or the bytes
/// `a..b` between them.
pub open spec fn between(
    s: EditorState,
    operator: Operator,
    motion: Motion<Seq<char>>,
    p: int,
    a: int,
    b: int,
) -> bool {
    let m = gone_by(operator, motion);
    let q = grapheme::clamped(s.text, p, reach(m));
    let lo = aiming::least(s.cursor, q);
    let hi = aiming::most(s.cursor, q);
    if by_rows(m) {
        a == text::row_of(s.text, lo) && b == text::row_of(s.text, hi)
    } else {
        a == lo && if takes_last(m) {
            past(s.text, hi, b)
        } else {
            b == hi
        }
    }
}

/// An operator over a motion works on what lies between the cursor and where the motion
/// leads. Where the motion fails it rings, and leaves text and register alone.
#[verifier::rlimit(60)]
pub proof fn an_operator_covers_up_to_its_motion(
    s: EditorState,
    key: Key,
    operator: Operator,
    motion: Motion<Seq<char>>,
    count: Option<usize>,
) -> (r: (int, int, int))
    requires
        s.wf(),
        s.mode == Mode::Normal,
        s.sticky >= 0,
        s.legal(),
        doing::times(count) >= 1,
        !operator.shifts(),
        doing::completes(
            s,
            key,
            Command::Operate { operator, target: Target::Motion(motion) },
            count,
        ),
        match motion {
            Motion::RepeatFind { .. }
            | Motion::Search { .. }
            | Motion::RepeatSearch { .. }
            | Motion::MatchPair
            | Motion::ToOffset { .. }
            | Motion::Mark { .. } => false,
            _ => true,
        },
    ensures
        aiming::even(s.text) ==> ({
            let m = gone_by(operator, motion);
            let u = doing::after(s, key);
            let (p, a, b) = r;
            ||| {
                &&& aiming::goal(s, m, count, reach(m), p)
                &&& between(s, operator, motion, p, a, b)
                &&& if by_rows(m) {
                    rows_worked(s, operator, a, b, u)
                } else {
                    bytes_worked(s, operator, a, b, u)
                }
            }
            ||| {
                &&& u.text == s.text && u.register == s.register && u.cursor == s.cursor && u.mode
                    == s.mode
                &&& match motion {
                    Motion::Find(find) => finding::supply(
                        s.text,
                        s.cursor,
                        s.cursor,
                        find.target,
                        find.backward,
                    ) < doing::times(count),
                    Motion::ScreenTop | Motion::ScreenMiddle | Motion::ScreenBottom => {
                        s.viewport.height == 0
                    },
                    _ => false,
                }
            }
        }),
{
    let command = Command::Operate { operator, target: Target::Motion(motion) };
    doing::lemma_done(s, key, command, count);
    let m = gone_by(operator, motion);
    let start = doing::opening(s, key);
    let h = start.state.find_remembered(motion).search_remembered(motion);
    reveal(Turn::acted);
    reveal(Turn::operated_on);
    if aiming::even(s.text) {
        let (p, a, b) = lemma_covers(h, operator, motion, count);
        lemma_goal_same(s, h, m, count, reach(m), p);
        if h.target_extent(operator, Target::Motion(motion), count) is Some {
            if by_rows(m) {
                lemma_rows_worked(start.to(h), operator, a, b, 1);
                assert(rows_worked(s, operator, a, b, doing::after(s, key)));
            } else {
                lemma_bytes_worked(start.to(h), operator, a, b, 1);
                assert(bytes_worked(s, operator, a, b, doing::after(s, key)));
            }
        }
        (p, a, b)
    } else {
        (0, 0, 0)
    }
}

/// The goal of a motion rests on the text, the cursor, the column remembered and the
/// screen alone.
proof fn lemma_goal_same(
    s: EditorState,
    h: EditorState,
    motion: Motion<Seq<char>>,
    count: Option<usize>,
    bound: Bound,
    p: int,
)
    requires
        h.text == s.text,
        h.cursor == s.cursor,
        h.sticky == s.sticky,
        h.viewport == s.viewport,
    ensures
        aiming::goal(s, motion, count, bound, p) == aiming::goal(h, motion, count, bound, p),
{
}

/// What an operator over a motion covers.
#[verifier::rlimit(60)]
proof fn lemma_covers(
    s: EditorState,
    operator: Operator,
    motion: Motion<Seq<char>>,
    count: Option<usize>,
) -> (r: (int, int, int))
    requires
        valid_utf8(s.text),
        text::bound(s.text, s.cursor),
        aiming::even(s.text),
        s.sticky >= 0,
        s.legal(),
        doing::times(count) >= 1,
        !operator.shifts(),
        match motion {
            Motion::RepeatFind { .. }
            | Motion::Search { .. }
            | Motion::RepeatSearch { .. }
            | Motion::MatchPair
            | Motion::ToOffset { .. }
            | Motion::Mark { .. } => false,
            _ => true,
        },
    ensures
        ({
            let m = gone_by(operator, motion);
            let (p, a, b) = r;
            match s.target_extent(operator, Target::Motion(motion), count) {
                Some(e) => {
                    &&& aiming::goal(s, m, count, reach(m), p)
                    &&& between(s, operator, motion, p, a, b)
                    &&& e == if by_rows(m) {
                        Extent::Lines { first: a, last: b }
                    } else {
                        Extent::Chars { start: a, end: b }
                    }
                    &&& by_rows(m) ==> 0 <= a <= b < text::rows(s.text)
                    &&& !by_rows(m) ==> 0 <= a <= b <= s.text.len()
                },
                None => match motion {
                    Motion::Find(find) => finding::supply(
                        s.text,
                        s.cursor,
                        s.cursor,
                        find.target,
                        find.backward,
                    ) < doing::times(count),
                    Motion::ScreenTop | Motion::ScreenMiddle | Motion::ScreenBottom => {
                        s.viewport.height == 0
                    },
                    _ => false,
                },
            }
        }),
{
    let t = s.text;
    let m = gone_by(operator, motion);
    let bound = reach(m);
    aiming::lemma_goal(s, m, count, bound);
    lemma_aim_fits(s, m, count, bound);
    let aim = motion::aimed(
        t,
        s.cursor,
        m,
        count,
        s.sticky,
        s.last_find,
        s.last_search,
        s.viewport,
        bound,
    );
    match aim {
        None => (0, 0, 0),
        Some(p) => {
            let q = grapheme::clamped(t, p, bound);
            lemma_clamped(t, p, bound);
            let lo = aiming::least(s.cursor, q);
            let hi = aiming::most(s.cursor, q);
            if by_rows(m) {
                text::lemma_newlines_mono(t, lo, hi);
                text::lemma_row_of(t, lo);
                text::lemma_row_of(t, hi);
                (p, text::row_of(t, lo), text::row_of(t, hi))
            } else if takes_last(m) {
                lemma_past(s, lo, hi);
                (p, lo, s.past_char(lo, hi))
            } else {
                (p, lo, hi)
            }
        },
    }
}

/// A clamped place is one where the cursor may rest.
pub(crate) proof fn lemma_clamped(t: Seq<u8>, p: int, bound: Bound)
    requires
        aiming::even(t),
        0 <= p,
    ensures
        grapheme::rests(t, grapheme::clamped(t, p, bound), bound),
        grapheme::rests(t, grapheme::clamped(t, p, bound), Bound::PastEnd),
        0 <= grapheme::clamped(t, p, bound) <= aiming::least(p, t.len() as int),
        text::row_of(t, grapheme::clamped(t, p, bound)) == text::row_of(
            t,
            aiming::least(p, t.len() as int),
        ),
{
    reveal(grapheme::clamped);
    let b = aiming::least(p, t.len() as int);
    text::lemma_row_of(t, b);
    let row = text::row_of(t, b);
    assert(grapheme::spaced(t, row));
    let v = grapheme::stops(t, row);
    let top = grapheme::top_col(v.len() as int, bound);
    grapheme::lemma_col_in(v, b, top + 1);
    grapheme::lemma_stop_rests(t, row, grapheme::col_in(v, b, top + 1), bound);
    grapheme::lemma_rests(t, grapheme::clamped(t, p, bound), bound);
}

/// Past the grapheme at a place of rest.
pub(crate) proof fn lemma_past(s: EditorState, lo: int, hi: int)
    requires
        aiming::even(s.text),
        0 <= lo <= hi <= s.text.len(),
        grapheme::rests(s.text, hi, Bound::PastEnd),
    ensures
        past(s.text, hi, s.past_char(lo, hi)),
        hi <= s.past_char(lo, hi) <= s.text.len(),
        text::bound(s.text, s.past_char(lo, hi)),
{
    let t = s.text;
    reveal(motion::aimed);
    reveal(aiming::at);
    text::lemma_row_of(t, hi);
    let row = text::row_of(t, hi);
    assert(grapheme::spaced(t, row));
    let i = aiming::lemma_stop(t, hi);
    aiming::lemma_steps_right(t, row, i, Bound::PastEnd, 1);
    let v = grapheme::stops(t, row);
    let j = aiming::least(i + 1, aiming::width(t, row));
    aiming::lemma_at(t, row, j);
    if i < j {
        assert(v[i] < v[j]);
    }
    grapheme::lemma_clamp_keeps(t, v[j] as int, Bound::PastEnd);
}

/// What a motion aims at lies in the text.
proof fn lemma_aim_fits(
    s: EditorState,
    motion: Motion<Seq<char>>,
    count: Option<usize>,
    bound: Bound,
)
    requires
        valid_utf8(s.text),
        text::bound(s.text, s.cursor),
        aiming::even(s.text),
        doing::times(count) >= 1,
        s.sticky >= 0,
        s.legal(),
        match motion {
            Motion::RepeatFind { .. }
            | Motion::Search { .. }
            | Motion::RepeatSearch { .. }
            | Motion::MatchPair
            | Motion::ToOffset { .. }
            | Motion::Mark { .. } => false,
            _ => true,
        },
    ensures
        motion::aimed(
            s.text,
            s.cursor,
            motion,
            count,
            s.sticky,
            s.last_find,
            s.last_search,
            s.viewport,
            bound,
        ) matches Some(p) ==> 0 <= p,
{
    aiming::lemma_goal(s, motion, count, bound);
    reveal(aiming::at);
    reveal(aiming::leads);
    let t = s.text;
    text::lemma_row_of(t, s.cursor);
    assert forall|row: int| 0 <= row < text::rows(t) implies 0 <= #[trigger] text::row_start(
        t,
        row,
    ) by {
        text::lemma_rows(t, row);
    }
    if let Motion::Find(find) = motion {
        if motion::aimed(
            s.text,
            s.cursor,
            motion,
            count,
            s.sticky,
            s.last_find,
            s.last_search,
            s.viewport,
            bound,
        ) is Some {
            reveal(motion::aimed);
            let q = finding::lemma_found(t, s.cursor, find, doing::times(count), false);
            text::lemma_next(t, q);
            if q > 0 {
                text::lemma_prev(t, q);
            }
        }
    }
    if t.len() > 0 {
        text::lemma_ends(t);
        text::lemma_prev(t, t.len() as int);
    }
}

} // verus!
