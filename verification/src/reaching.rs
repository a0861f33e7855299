//! What the operators cover where what they go by has to be found first: a repeated find,
//! a search, a bracket's partner, a mark, a selection.

use vstd::prelude::*;
use vstd::utf8::*;

use crate::aiming;
use crate::buffer;
use crate::command::{Command, Find, Mode, Motion, Operator, Target};
use crate::doing;
use crate::finding;
use crate::grapheme;
use crate::grapheme::Bound;
use crate::key::Key;
use crate::motion;
use crate::motion::Extent;
use crate::pairing;
use crate::seeking;
use crate::spans;
use crate::state;
use crate::state::{EditorState, Turn};
use crate::text;
use crate::unicode;

verus! {

/// Where the mark of a motion stands, if it is set.
pub open spec fn mark_of(s: EditorState, name: char) -> Option<usize> {
    if name == '\'' || name == '`' {
        if s.jumps.len() == 0 {
            None
        } else {
            Some(s.jumps[s.jumps.len() - 1])
        }
    } else {
        s.mark(name)
    }
}

/// Whether an operator over `motion` acts on whole rows: over a mark named by `'`.
pub open spec fn by_rows(motion: Motion<Seq<char>>) -> bool {
    motion matches Motion::Mark { exact, .. } && !exact
}

/// Whether an operator over `motion` takes the character it leads to along: a bracket's
/// partner, and what a find ahead leads to.
pub open spec fn takes_last(s: EditorState, motion: Motion<Seq<char>>) -> bool {
    match motion {
        Motion::MatchPair => true,
        Motion::RepeatFind { reverse } => s.last_find matches Some(find) && find.backward
            == reverse,
        _ => false,
    }
}

/// Whether `p` is what `motion` looks for.
pub open spec fn sought(
    s: EditorState,
    motion: Motion<Seq<char>>,
    count: Option<usize>,
    p: int,
    laps: int,
) -> bool {
    let t = s.text;
    let n = doing::times(count);
    match motion {
        Motion::Search { pattern, backward } => seeking::nth_hit(
            t,
            pattern,
            s.cursor,
            backward,
            n,
            laps,
            p,
        ),
        Motion::RepeatSearch { reverse } => s.last_search matches Some((pattern, ago))
            && seeking::nth_hit(t, pattern, s.cursor, if reverse {
            !ago
        } else {
            ago
        }, n, laps, p),
        Motion::RepeatFind { reverse } => s.last_find matches Some(find) && (!find.till
            ==> finding::nth(t, s.cursor, s.cursor, find.target, if reverse {
            !find.backward
        } else {
            find.backward
        }, n, p)),
        Motion::MatchPair => {
            let limit = text::content_end(t, text::row_of(t, s.cursor));
            forall|x: int| #[trigger]
                pairing::first(t, s.cursor, limit, x) ==> pairing::partners(t, x, p)
        },
        Motion::Mark { name, exact } => mark_of(s, name) matches Some(offset) && {
            let at = grapheme::clamped(t, offset as int, Bound::PastEnd);
            if exact {
                p == at
            } else {
                aiming::leads(t, text::row_of(t, at), p)
            }
        },
        _ => false,
    }
}

/// Whether there is nothing that `motion` could find.
pub open spec fn missing(s: EditorState, motion: Motion<Seq<char>>, count: Option<usize>) -> bool {
    let t = s.text;
    match motion {
        Motion::Search { pattern, .. } => pattern.len() == 0 || seeking::hits(t, pattern) == 0,
        Motion::RepeatSearch { .. } => match s.last_search {
            None => true,
            Some((pattern, _)) => pattern.len() == 0 || seeking::hits(t, pattern) == 0,
        },
        Motion::RepeatFind { reverse } => match s.last_find {
            None => true,
            Some(find) => !find.till ==> finding::supply(
                t,
                s.cursor,
                s.cursor,
                find.target,
                if reverse {
                    !find.backward
                } else {
                    find.backward
                },
            ) < doing::times(count),
        },
        Motion::MatchPair => {
            let limit = text::content_end(t, text::row_of(t, s.cursor));
            forall|x: int, q: int| #[trigger]
                pairing::first(t, s.cursor, limit, x) ==> !#[trigger] pairing::partners(t, x, q)
        },
        Motion::Mark { name, .. } => mark_of(s, name) is None,
        _ => false,
    }
}

spec fn looks(motion: Motion<Seq<char>>) -> bool {
    match motion {
        Motion::RepeatFind { .. }
        | Motion::Search { .. }
        | Motion::RepeatSearch { .. }
        | Motion::MatchPair
        | Motion::Mark { .. } => true,
        _ => false,
    }
}

/// The motion after a mark is looked up.
spec fn concrete(s: EditorState, motion: Motion<Seq<char>>) -> Motion<Seq<char>> {
    match motion {
        Motion::Mark { name, exact } => Motion::ToOffset {
            offset: mark_of(s, name)->0,
            linewise: !exact,
        },
        _ => motion,
    }
}

spec fn target(s: EditorState, motion: Motion<Seq<char>>, count: Option<usize>) -> Option<int> {
    motion::aimed(
        s.text,
        s.cursor,
        concrete(s, motion),
        count,
        s.sticky,
        s.last_find,
        s.last_search,
        s.viewport,
        if takes_last(s, motion) {
            Bound::OnChar
        } else {
            Bound::PastEnd
        },
    )
}

/// What the motion aims at is what it looks for.
proof fn lemma_sought(s: EditorState, motion: Motion<Seq<char>>, count: Option<usize>) -> (laps: int)
    requires
        valid_utf8(s.text),
        text::bound(s.text, s.cursor),
        doing::times(count) >= 1,
        looks(motion),
        aiming::even(s.text),
        unicode::cuts(unicode::grapheme_starts(decode_utf8(s.text)), s.text),
        motion is Mark ==> mark_of(s, motion->name) is Some,
    ensures
        match target(s, motion, count) {
            Some(p) => sought(s, motion, count, p, laps) && 0 <= p,
            None => missing(s, motion, count),
        },
{
    let t = s.text;
    let n = doing::times(count);
    reveal(motion::aimed);
    match motion {
        Motion::Search { pattern, backward } => {
            let r = seeking::lemma_found(t, s.cursor, pattern, backward, n);
            r.1
        },
        Motion::RepeatSearch { reverse } => match s.last_search {
            Some((pattern, ago)) => {
                let r = seeking::lemma_found(t, s.cursor, pattern, ago != reverse, n);
                r.1
            },
            None => 0,
        },
        Motion::RepeatFind { reverse } => {
            match s.last_find {
                Some(last) => {
                    let find = Find { backward: last.backward != reverse, ..last };
                    let p = finding::lemma_found(t, s.cursor, find, n, true);
                    if motion::found_in_row(t, s.cursor, find, n, true) is Some {
                        text::lemma_next(t, p);
                        if p > 0 {
                            text::lemma_prev(t, p);
                        }
                    }
                },
                None => {},
            }
            0
        },
        Motion::MatchPair => {
            pairing::lemma_matched(t, s.cursor);
            0
        },
        Motion::Mark { name, exact } => {
            let offset = mark_of(s, name)->0 as int;
            let at = grapheme::clamped(t, offset, Bound::PastEnd);
            spans::lemma_clamped(t, offset, Bound::PastEnd);
            text::lemma_row_of(t, at);
            aiming::lemma_leads(t, text::row_of(t, at));
            reveal(aiming::leads);
            text::lemma_rows(t, text::row_of(t, at));
            0
        },
        _ => 0,
    }
}

/// What lies between the cursor and `p`, where the motion leads.
pub open spec fn between(
    s: EditorState,
    motion: Motion<Seq<char>>,
    p: int,
    a: int,
    b: int,
) -> bool {
    let q = grapheme::clamped(s.text, p, if takes_last(s, motion) {
        Bound::OnChar
    } else {
        Bound::PastEnd
    });
    let lo = aiming::least(s.cursor, q);
    let hi = aiming::most(s.cursor, q);
    if by_rows(motion) {
        a == text::row_of(s.text, lo) && b == text::row_of(s.text, hi)
    } else {
        a == lo && if takes_last(s, motion) {
            spans::past(s.text, hi, b)
        } else {
            b == hi
        }
    }
}

/// What an operator over such a motion covers.
#[verifier::rlimit(60)]
proof fn lemma_covers(
    s: EditorState,
    operator: Operator,
    motion: Motion<Seq<char>>,
    count: Option<usize>,
) -> (r: (int, int, int, int))
    requires
        valid_utf8(s.text),
        text::bound(s.text, s.cursor),
        s.legal(),
        doing::times(count) >= 1,
        !operator.shifts(),
        looks(motion),
        aiming::even(s.text),
        unicode::cuts(unicode::grapheme_starts(decode_utf8(s.text)), s.text),
    ensures
        ({
            let (p, laps, a, b) = r;
            match s.target_extent(operator, Target::Motion(motion), count) {
                Some(e) => {
                    &&& sought(s, motion, count, p, laps)
                    &&& between(s, motion, p, a, b)
                    &&& e == if by_rows(motion) {
                        Extent::Lines { first: a, last: b }
                    } else {
                        Extent::Chars { start: a, end: b }
                    }
                    &&& by_rows(motion) ==> 0 <= a <= b < text::rows(s.text)
                    &&& !by_rows(motion) ==> 0 <= a <= b <= s.text.len()
                },
                None => missing(s, motion, count),
            }
        }),
{
    let t = s.text;
    if motion is Mark && mark_of(s, motion->name) is None {
        (0, 0, 0, 0)
    } else {
        let laps = lemma_sought(s, motion, count);
        assert(s.mark_resolved(motion) == Some(concrete(s, motion)));
        match target(s, motion, count) {
            None => (0, 0, 0, 0),
            Some(p) => {
                let bound = if takes_last(s, motion) {
                    Bound::OnChar
                } else {
                    Bound::PastEnd
                };
                let q = grapheme::clamped(t, p, bound);
                spans::lemma_clamped(t, p, bound);
                let lo = aiming::least(s.cursor, q);
                let hi = aiming::most(s.cursor, q);
                if by_rows(motion) {
                    text::lemma_newlines_mono(t, lo, hi);
                    text::lemma_row_of(t, lo);
                    text::lemma_row_of(t, hi);
                    (p, laps, text::row_of(t, lo), text::row_of(t, hi))
                } else if takes_last(s, motion) {
                    spans::lemma_past(s, lo, hi);
                    (p, laps, lo, s.past_char(lo, hi))
                } else {
                    (p, laps, lo, hi)
                }
            },
        }
    }
}

/// An operator over a repeated find, a search, `%` or a mark works on what lies between
/// the cursor and what is found. Where nothing is found it leaves text and register alone.
#[verifier::rlimit(60)]
pub proof fn an_operator_covers_up_to_what_is_sought(
    s: EditorState,
    key: Key,
    operator: Operator,
    motion: Motion<Seq<char>>,
    count: Option<usize>,
) -> (r: (int, int, int, int))
    requires
        s.wf(),
        s.mode == Mode::Normal,
        s.legal(),
        doing::times(count) >= 1,
        !operator.shifts(),
        doing::completes(
            s,
            key,
            Command::Operate { operator, target: Target::Motion(motion) },
            count,
        ),
        match motion {
            Motion::RepeatFind { .. }
            | Motion::Search { .. }
            | Motion::RepeatSearch { .. }
            | Motion::MatchPair
            | Motion::Mark { .. } => true,
            _ => false,
        },
    ensures
        aiming::even(s.text) && unicode::cuts(
            unicode::grapheme_starts(decode_utf8(s.text)),
            s.text,
        ) ==> ({
            let u = doing::after(s, key);
            let (p, laps, a, b) = r;
            ||| {
                &&& sought(s, motion, count, p, laps)
                &&& between(s, motion, p, a, b)
                &&& if by_rows(motion) {
                    spans::rows_worked(s, operator, a, b, u)
                } else {
                    spans::bytes_worked(s, operator, a, b, u)
                }
            }
            ||| {
                &&& missing(s, motion, count)
                &&& u.text == s.text
                &&& u.register == s.register
                &&& u.cursor == s.cursor
                &&& u.mode == s.mode
            }
        }),
{
    let command = Command::Operate { operator, target: Target::Motion(motion) };
    doing::lemma_done(s, key, command, count);
    let start = doing::opening(s, key);
    let h = start.state.find_remembered(motion).search_remembered(motion);
    reveal(Turn::acted);
    reveal(Turn::operated_on);
    if aiming::even(s.text) && unicode::cuts(
        unicode::grapheme_starts(decode_utf8(s.text)),
        s.text,
    ) {
        let (p, laps, a, b) = lemma_covers(h, operator, motion, count);
        lemma_same(s, h, motion, count, p, laps, a, b);
        if h.target_extent(operator, Target::Motion(motion), count) is Some {
            if by_rows(motion) {
                spans::lemma_rows_worked(start.to(h), operator, a, b, 1);
            } else {
                spans::lemma_bytes_worked(start.to(h), operator, a, b, 1);
            }
        }
        (p, laps, a, b)
    } else {
        (0, 0, 0, 0)
    }
}

/// What is sought rests on the text, the cursor and what is remembered alone.
proof fn lemma_same(
    s: EditorState,
    h: EditorState,
    motion: Motion<Seq<char>>,
    count: Option<usize>,
    p: int,
    laps: int,
    a: int,
    b: int,
)
    requires
        h.text == s.text,
        h.cursor == s.cursor,
        h.last_find == s.last_find,
        h.last_search == s.last_search || motion is Search,
        h.marks == s.marks,
        h.jumps == s.jumps,
    ensures
        sought(s, motion, count, p, laps) == sought(h, motion, count, p, laps),
        missing(s, motion, count) == missing(h, motion, count),
        between(s, motion, p, a, b) == between(h, motion, p, a, b),
{
}

// ---------------------------------------------------------------------------
// selections
// ---------------------------------------------------------------------------

/// What an operator makes of a text over `a..b`, of which it takes `out` away.
pub open spec fn text_worked(
    t: Seq<u8>,
    operator: Operator,
    a: int,
    b: int,
    out: Seq<u8>,
    u: Seq<u8>,
) -> bool {
    match operator {
        Operator::Delete => u == out,
        Operator::Change => u == spans::cut(t, a, b),
        Operator::Yank => u == t,
        _ => {
            let new = encode_utf8(spans::all_cased(decode_utf8(t.subrange(a, b)), operator));
            u == if t.len() - (b - a) + new.len() <= buffer::MAX_LEN {
                t.take(a) + new + t.skip(b)
            } else {
                t
            }
        },
    }
}

/// An operator over a selection works what is selected, and then leaves visual mode: for
/// insert mode where it changes text, and otherwise for normal mode.
pub proof fn an_operator_works_its_selection(
    s: EditorState,
    key: Key,
    operator: Operator,
    count: Option<usize>,
)
    requires
        s.wf(),
        s.mode is Visual,
        !operator.shifts(),
        doing::completes(s, key, Command::Operate { operator, target: Target::Selection }, count),
    ensures
        ({
            let t = s.text;
            let u = doing::after(s, key);
            match s.selected() {
                Some(Extent::Chars { start, end }) => 0 <= start < end <= t.len() ==> {
                    &&& text_worked(t, operator, start, end, spans::cut(t, start, end), u.text)
                    &&& u.mode == if operator is Change {
                        Mode::Insert
                    } else {
                        Mode::Normal
                    }
                    &&& if operator.fills() {
                        u.register.text == t.subrange(start, end) && !u.register.linewise
                    } else {
                        u.register == s.register
                    }
                },
                Some(Extent::Lines { first, last }) => 0 <= first <= last < text::rows(t) && t.len()
                    > 0 ==> {
                    &&& text_worked(
                        t,
                        operator,
                        text::row_start(t, first),
                        text::content_end(t, last),
                        spans::rows_gone(t, first, last),
                        u.text,
                    )
                    &&& u.mode == if operator is Change {
                        Mode::Insert
                    } else {
                        Mode::Normal
                    }
                    &&& if operator.fills() {
                        u.register.text == spans::whole_rows(t, first, last) && u.register.linewise
                    } else {
                        u.register == s.register
                    }
                },
                None => u.text == t && u.register == s.register,
            }
        }),
{
    let command = Command::Operate { operator, target: Target::Selection };
    doing::lemma_done(s, key, command, count);
    let turn = doing::opening(s, key);
    assert(turn.acted(command, count) == turn.operated_on(operator, Target::Selection, count)) by {
        reveal(Turn::acted);
    }
    assert(turn.state.selected() == s.selected());
    reveal(Turn::operated_on);
    let amount = match count {
        Some(n) => n,
        None => 1,
    };
    match s.selected() {
        Some(Extent::Chars { start, end }) => {
            if 0 <= start < end <= s.text.len() {
                lemma_bytes(turn, operator, start, end, amount);
            }
        },
        Some(Extent::Lines { first, last }) => {
            if 0 <= first <= last < text::rows(s.text) && s.text.len() > 0 {
                lemma_rows(turn, operator, first, last, amount);
            }
        },
        None => {},
    }
}

#[verifier::rlimit(60)]
#[verifier::spinoff_prover]
proof fn lemma_bytes(turn: Turn, operator: Operator, from: int, to: int, amount: usize)
    requires
        turn.state.mode is Visual,
        0 <= from < to <= turn.state.text.len(),
        turn.state.text.len() <= buffer::MAX_LEN,
        !operator.shifts(),
    ensures
        ({
            let t = turn.state.text;
            let u = turn.operated(operator, Extent::Chars { start: from, end: to }, amount).state;
            &&& text_worked(t, operator, from, to, spans::cut(t, from, to), u.text)
            &&& u.mode == if operator is Change {
                Mode::Insert
            } else {
                Mode::Normal
            }
            &&& if operator.fills() {
                u.register.text == t.subrange(from, to) && !u.register.linewise
            } else {
                u.register == turn.state.register
            }
        }),
{
    reveal(Turn::operated);
    reveal(Turn::performed);
    let e = Extent::Chars { start: from, end: to };
    let m = turn.state.selection_marked();
    let s = if operator.fills() {
        m.yanked(e)
    } else {
        m
    };
    let t = s.text;
    let a = turn.to(s);
    spans::lemma_edited(a, from, to, Seq::empty());
    assert(t.take(from) + Seq::<u8>::empty() + t.skip(to) =~= spans::cut(t, from, to));
    if operator is Lower || operator is Upper || operator is SwapCase {
        spans::lemma_cased(decode_utf8(t.subrange(from, to)), operator);
        spans::lemma_edited(a, from, to, state::recased_bytes(t, from, to, operator));
    }
}

#[verifier::rlimit(80)]
#[verifier::spinoff_prover]
proof fn lemma_rows(turn: Turn, operator: Operator, first: int, last: int, amount: usize)
    requires
        turn.state.mode is Visual,
        0 <= first <= last < text::rows(turn.state.text),
        0 < turn.state.text.len() <= buffer::MAX_LEN,
        !operator.shifts(),
    ensures
        ({
            let t = turn.state.text;
            let u = turn.operated(operator, Extent::Lines { first, last }, amount).state;
            &&& text_worked(
                t,
                operator,
                text::row_start(t, first),
                text::content_end(t, last),
                spans::rows_gone(t, first, last),
                u.text,
            )
            &&& u.mode == if operator is Change {
                Mode::Insert
            } else {
                Mode::Normal
            }
            &&& if operator.fills() {
                u.register.text == spans::whole_rows(t, first, last) && u.register.linewise
            } else {
                u.register == turn.state.register
            }
        }),
{
    reveal(Turn::operated);
    reveal(Turn::performed);
    let e = Extent::Lines { first, last };
    let m = turn.state.selection_marked();
    let s = if operator.fills() {
        m.yanked(e)
    } else {
        m
    };
    let t = s.text;
    let a = turn.to(s);
    text::lemma_rows(t, first);
    text::lemma_rows(t, last);
    if first < last {
        text::lemma_row_start_mono(t, first, last);
    }
    spans::lemma_gone(t, first, last);
    let (d, f) = e.deleted(t);
    let from = text::row_start(t, first);
    let to = text::content_end(t, last);
    spans::lemma_edited(a, d, f, Seq::empty());
    spans::lemma_edited(a, from, to, Seq::empty());
    assert(t.take(d) + Seq::<u8>::empty() + t.skip(f) =~= spans::cut(t, d, f));
    assert(t.take(from) + Seq::<u8>::empty() + t.skip(to) =~= spans::cut(t, from, to));
    if last + 1 >= text::rows(t) {
        assert(t.subrange(from, text::row_end(t, last)) =~= t.skip(from));
    }
    if operator is Lower || operator is Upper || operator is SwapCase {
        spans::lemma_cased(decode_utf8(t.subrange(from, to)), operator);
        spans::lemma_edited(a, from, to, state::recased_bytes(t, from, to, operator));
    }
}

} // verus!
