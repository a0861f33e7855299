//! What changing, deleting and adding surrounding delimiters promise.

use vstd::prelude::*;
use vstd::utf8::*;

use crate::buffer;
use crate::command::{Command, TextObject};
use crate::doing;
use crate::effect::Effect;
use crate::grapheme;
use crate::key;
use crate::key::Key;
use crate::motion::Extent;
use crate::object;
use crate::puts;
use crate::spans;
use crate::state;
use crate::state::{EditorState, Turn};
use crate::text;

verus! {

/// What a key puts before and after: the bracket it stands for, with a space inside it for
/// an opening one, or the quote.
pub open spec fn wraps(delimiter: char, before: Seq<char>, after: Seq<char>) -> bool {
    match delimiter {
        '(' => before == seq!['(', ' '] && after == seq![' ', ')'],
        '[' => before == seq!['[', ' '] && after == seq![' ', ']'],
        '{' => before == seq!['{', ' '] && after == seq![' ', '}'],
        '<' => before == seq!['<', ' '] && after == seq![' ', '>'],
        ')' => before == seq!['('] && after == seq![')'],
        ']' => before == seq!['['] && after == seq![']'],
        '}' => before == seq!['{'] && after == seq!['}'],
        '>' => before == seq!['<'] && after == seq!['>'],
        '"' => before == seq!['"'] && after == seq!['"'],
        '\'' => before == seq!['\''] && after == seq!['\''],
        '`' => before == seq!['`'] && after == seq!['`'],
        _ => false,
    }
}

/// Whether a key stands for delimiters.
pub open spec fn delimits(c: char) -> bool {
    match c {
        '(' | '[' | '{' | '<' | ')' | ']' | '}' | '>' | '"' | '\'' | '`' => true,
        _ => false,
    }
}

/// `t` with the delimiters at `a` and `b`, of `wa` and `wb` bytes, replaced, and with a
/// space inside each where both have one.
pub open spec fn rewrapped(
    t: Seq<u8>,
    a: int,
    wa: int,
    b: int,
    wb: int,
    before: Seq<u8>,
    after: Seq<u8>,
) -> Seq<u8> {
    let padded = a + wa < b - 1 && t[a + wa] == 32u8 && t[b - 1] == 32u8;
    let inner = if padded {
        t.subrange(a + wa + 1, b - 1)
    } else {
        t.subrange(a + wa, b)
    };
    t.take(a) + before + inner + after + t.skip(b + wb)
}

/// The widths of the delimiters of an object.
pub open spec fn widths(object: TextObject) -> (int, int) {
    match object {
        TextObject::Delimited { open, close } => (
            encode_utf8(seq![open]).len() as int,
            encode_utf8(seq![close]).len() as int,
        ),
        TextObject::Quoted(quote) => (
            encode_utf8(seq![quote]).len() as int,
            encode_utf8(seq![quote]).len() as int,
        ),
        _ => (0, 0),
    }
}

proof fn lemma_widths(c: char)
    ensures
        encode_utf8(seq![c]).len() == text::char_width(c),
        text::char_width(c) >= 1,
{
    text::lemma_encode_one(c);
    text::lemma_char_width(c);
}

proof fn lemma_replaced(
    turn: Turn,
    a: int,
    b: int,
    wa: int,
    wb: int,
    before: Seq<u8>,
    after: Seq<u8>,
)
    requires
        0 <= a,
        1 <= wa,
        1 <= wb,
        a + wa <= b,
        b + wb <= turn.state.text.len(),
        turn.state.text.len() + before.len() + after.len() <= buffer::MAX_LEN,
    ensures
        ({
            let u = turn.delimiters_replaced((a, b, wa, wb), before, after).state;
            &&& u.text == rewrapped(turn.state.text, a, wa, b, wb, before, after)
            &&& u.register == turn.state.register
            &&& u.mode == turn.state.mode
            &&& u.cursor == grapheme::clamped(u.text, a, state::rest_in(turn.state.mode))
        }),
{
    reveal(Turn::delimiters_replaced);
    let t = turn.state.text;
    let pad: int = if turn.state.padded(a, b, wa) {
        1
    } else {
        0
    };
    let x = turn.edited(b - pad, b + wb, after);
    spans::lemma_edited(turn, b - pad, b + wb, after);
    let w = x.state.text;
    assert(w == t.take(b - pad) + after + t.skip(b + wb));
    spans::lemma_edited(x, a, a + wa + pad, before);
    assert(w.take(a) =~= t.take(a));
    assert(w.skip(a + wa + pad) =~= t.subrange(a + wa + pad, b - pad) + after + t.skip(b + wb));
    assert(w.take(a) + before + w.skip(a + wa + pad) =~= rewrapped(
        t,
        a,
        wa,
        b,
        wb,
        before,
        after,
    ));
}

/// Whether `object` is the one that `target` names, with its delimiters at `a` and `b`.
pub open spec fn stands_around(
    s: EditorState,
    target: char,
    object: TextObject,
    a: int,
    b: int,
) -> bool {
    &&& s.keymap.object_of(key::plain(target)) == Some(object)
    &&& object is Delimited || object is Quoted
    &&& object::delimiters_of(s.text, s.cursor, object) == Some((a, b))
    &&& 0 <= a
    &&& a + widths(object).0 <= b
    &&& b + widths(object).1 <= s.text.len()
}

/// Deleting what surrounds takes both delimiters away, and one space inside each where
/// both have one. All else stays, and the cursor goes to where the first one stood.
pub proof fn deleting_what_surrounds_takes_both(
    s: EditorState,
    key: Key,
    target: char,
    object: TextObject,
    a: int,
    b: int,
    count: Option<usize>,
)
    requires
        s.wf(),
        doing::completes(s, key, Command::DeleteSurround(target), count),
        stands_around(s, target, object, a, b),
    ensures
        ({
            let u = doing::after(s, key);
            let (wa, wb) = widths(object);
            &&& u.text == rewrapped(s.text, a, wa, b, wb, Seq::empty(), Seq::empty())
            &&& u.register == s.register
            &&& u.mode == s.mode
            &&& u.cursor == grapheme::clamped(u.text, a, doing::resting(s.mode))
        }),
{
    doing::lemma_done(s, key, Command::DeleteSurround(target), count);
    reveal(Turn::acted);
    reveal(Turn::surround_deleted);
    let turn = doing::opening(s, key);
    let (wa, wb) = widths(object);
    match object {
        TextObject::Delimited { open, close } => {
            lemma_widths(open);
            lemma_widths(close);
        },
        TextObject::Quoted(quote) => {
            lemma_widths(quote);
        },
        _ => {},
    }
    lemma_replaced(turn, a, b, wa, wb, Seq::empty(), Seq::empty());
}

/// Changing what surrounds puts the delimiters that the second key names in the place of
/// those that the first one names. Where there are none, or the second names none, it
/// rings.
pub proof fn changing_what_surrounds_replaces_both(
    s: EditorState,
    key: Key,
    from: char,
    to: char,
    object: TextObject,
    a: int,
    b: int,
    before: Seq<char>,
    after: Seq<char>,
    count: Option<usize>,
)
    requires
        s.wf(),
        doing::completes(s, key, Command::ChangeSurround { from, to }, count),
        stands_around(s, from, object, a, b),
        wraps(to, before, after),
        s.text.len() + encode_utf8(before).len() + encode_utf8(after).len() <= buffer::MAX_LEN,
    ensures
        ({
            let u = doing::after(s, key);
            let (wa, wb) = widths(object);
            &&& u.text == rewrapped(
                s.text,
                a,
                wa,
                b,
                wb,
                encode_utf8(before),
                encode_utf8(after),
            )
            &&& u.register == s.register
            &&& u.mode == s.mode
            &&& u.cursor == grapheme::clamped(u.text, a, doing::resting(s.mode))
        }),
{
    doing::lemma_done(s, key, Command::ChangeSurround { from, to }, count);
    reveal(Turn::acted);
    reveal(Turn::surround_changed);
    let turn = doing::opening(s, key);
    let (wa, wb) = widths(object);
    match object {
        TextObject::Delimited { open, close } => {
            lemma_widths(open);
            lemma_widths(close);
        },
        TextObject::Quoted(quote) => {
            lemma_widths(quote);
        },
        _ => {},
    }
    lemma_replaced(turn, a, b, wa, wb, encode_utf8(before), encode_utf8(after));
}

/// A surround command rings, and changes nothing, where the key names no delimiters to
/// put, or none are around the cursor to take.
pub proof fn a_surround_without_delimiters_rings(
    s: EditorState,
    key: Key,
    command: Command<Seq<char>>,
    count: Option<usize>,
)
    requires
        s.wf(),
        doing::completes(s, key, command, count),
        match command {
            Command::ChangeSurround { from, to } => !delimits(to) || s.keymap.object_of(
                key::plain(from),
            ) is None,
            Command::DeleteSurround(target) => s.keymap.object_of(key::plain(target)) is None,
            Command::SurroundSelection(delimiter) => !delimits(delimiter) || !(s.mode is Visual),
            _ => false,
        },
    ensures
        puts::rang(s, key),
{
    doing::lemma_done(s, key, command, count);
    reveal(Turn::acted);
    reveal(Turn::surround_changed);
    reveal(Turn::surround_deleted);
    reveal(Turn::surrounded);
    assert(Seq::<Effect>::empty().push(Effect::Bell) =~= seq![Effect::Bell]);
}

/// Delimiters put around a selection stand right before and right after it; around rows
/// they stand on rows of their own, without the spaces.
pub proof fn a_selection_is_surrounded(
    s: EditorState,
    key: Key,
    delimiter: char,
    before: Seq<char>,
    after: Seq<char>,
    count: Option<usize>,
)
    requires
        s.wf(),
        s.mode is Visual,
        doing::completes(s, key, Command::SurroundSelection(delimiter), count),
        wraps(delimiter, before, after),
        s.text.len() + encode_utf8(before).len() + encode_utf8(after).len() + 8
            <= buffer::MAX_LEN,
    ensures
        match s.selected() {
            None => puts::rang(s, key),
            Some(Extent::Chars { start, end }) => 0 <= start <= end <= s.text.len() ==> {
                &&& doing::after(s, key).text == s.text.take(start) + encode_utf8(before)
                    + s.text.subrange(start, end) + encode_utf8(after) + s.text.skip(end)
                &&& doing::after(s, key).register == s.register
            },
            Some(Extent::Lines { first, last }) => 0 <= first <= last < text::rows(s.text) ==> {
                let a = text::row_start(s.text, first);
                let b = text::content_end(s.text, last);
                &&& doing::after(s, key).text == s.text.take(a) + encode_utf8(
                    seq![before[0], '\n'],
                ) + s.text.subrange(a, b) + encode_utf8(seq!['\n', after.last()]) + s.text.skip(b)
                &&& doing::after(s, key).register == s.register
            },
        },
{
    doing::lemma_done(s, key, Command::SurroundSelection(delimiter), count);
    assert(Seq::<Effect>::empty().push(Effect::Bell) =~= seq![Effect::Bell]);
    let turn = doing::opening(s, key);
    assert(turn.acted(Command::SurroundSelection(delimiter), count) == turn.surrounded(delimiter))
        by {
        reveal(Turn::acted);
    }
    assert(turn.state.selected() == s.selected());
    lemma_surrounded(turn, delimiter, before, after);
}

/// What a key puts around.
proof fn lemma_wraps(delimiter: char, before: Seq<char>, after: Seq<char>)
    requires
        wraps(delimiter, before, after),
    ensures
        state::surround_pair(delimiter) == Some((before[0], after.last(), before.len() == 2)),
        before.len() == 2 ==> before == seq![before[0], ' '] && after == seq![' ', after.last()],
        before.len() != 2 ==> before == seq![before[0]] && after == seq![after.last()],
        (before[0] as u32) < 128,
        (after.last() as u32) < 128,
{
}

#[verifier::rlimit(40)]
#[verifier::spinoff_prover]
proof fn lemma_surrounded(turn: Turn, delimiter: char, before: Seq<char>, after: Seq<char>)
    requires
        turn.state.mode is Visual,
        wraps(delimiter, before, after),
        turn.state.text.len() + encode_utf8(before).len() + encode_utf8(after).len() + 8
            <= buffer::MAX_LEN,
    ensures
        ({
            let t = turn.state.text;
            let u = turn.surrounded(delimiter);
            match turn.state.selected() {
                None => u == turn.bell(),
                Some(Extent::Chars { start, end }) => 0 <= start <= end <= t.len() ==> {
                    &&& u.state.text == t.take(start) + encode_utf8(before) + t.subrange(
                        start,
                        end,
                    ) + encode_utf8(after) + t.skip(end)
                    &&& u.state.register == turn.state.register
                },
                Some(Extent::Lines { first, last }) => 0 <= first <= last < text::rows(t) ==> {
                    let a = text::row_start(t, first);
                    let b = text::content_end(t, last);
                    &&& u.state.text == t.take(a) + encode_utf8(seq![before[0], '\n'])
                        + t.subrange(a, b) + encode_utf8(seq!['\n', after.last()]) + t.skip(b)
                    &&& u.state.register == turn.state.register
                },
            }
        }),
{
    reveal(Turn::surrounded);
    lemma_wraps(delimiter, before, after);
    let t = turn.state.text;
    let m = turn.to(turn.state.selection_marked());
    match turn.state.selected() {
        None => {},
        Some(Extent::Chars { start, end }) => {
            if 0 <= start <= end <= t.len() {
                lemma_put_around(m, start, end, encode_utf8(before), encode_utf8(after));
            }
        },
        Some(Extent::Lines { first, last }) => {
            if 0 <= first <= last < text::rows(t) {
                let a = text::row_start(t, first);
                let b = text::content_end(t, last);
                text::lemma_rows(t, first);
                text::lemma_rows(t, last);
                if first < last {
                    text::lemma_row_start_mono(t, first, last);
                }
                lemma_two(before[0], '\n');
                lemma_two('\n', after.last());
                lemma_put_around(
                    m,
                    a,
                    b,
                    encode_utf8(seq![before[0], '\n']),
                    encode_utf8(seq!['\n', after.last()]),
                );
            }
        },
    }
}

/// Two characters of ASCII take two bytes.
proof fn lemma_two(c: char, d: char)
    requires
        (c as u32) < 128,
        (d as u32) < 128,
    ensures
        encode_utf8(seq![c, d]).len() == 2,
{
    assert(seq![c, d] =~= seq![c] + seq![d]);
    text::lemma_encode_append(seq![c], seq![d]);
    text::lemma_ascii_bytes(c);
    text::lemma_ascii_bytes(d);
}

proof fn lemma_put_around(m: Turn, a: int, b: int, x: Seq<u8>, y: Seq<u8>)
    requires
        0 <= a <= b <= m.state.text.len(),
        m.state.text.len() + x.len() + y.len() <= buffer::MAX_LEN,
    ensures
        ({
            let t = m.state.text;
            let u = m.edited(b, b, y).edited(a, a, x).state;
            &&& u.text == t.take(a) + x + t.subrange(a, b) + y + t.skip(b)
            &&& u.register == m.state.register
        }),
{
    let t = m.state.text;
    spans::lemma_edited(m, b, b, y);
    let n = m.edited(b, b, y);
    let w = n.state.text;
    spans::lemma_edited(n, a, a, x);
    assert(w == t.take(b) + y + t.skip(b));
    assert(w.take(a) + x + w.skip(a) =~= t.take(a) + x + t.subrange(a, b) + y + t.skip(b));
}

} // verus!
