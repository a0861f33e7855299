//! What the finds `f`, `F`, `t`, `T`, `;` and `,` promise.
//!
//! A find counts the places on the cursor's row where the character stands, to the one
//! side of the cursor or to the other.

use vstd::prelude::*;
use vstd::utf8::*;

use crate::command::{Command, Find, Motion};
use crate::doing;
use crate::effect::Effect;
use crate::grapheme;
use crate::key::Key;
use crate::motion;
use crate::scan;
use crate::state::{EditorState, Turn};
use crate::text;

verus! {

/// Whether `c` stands at `p`.
pub open spec fn stands(t: Seq<u8>, c: char) -> spec_fn(int) -> bool {
    |p: int| text::bound(t, p) && text::char_at(t, p) == Some(c)
}

/// How often `c` stands on the row of `from`, past `origin` or before it.
pub open spec fn supply(t: Seq<u8>, from: int, origin: int, c: char, backward: bool) -> int {
    let row = text::row_of(t, from);
    let end = text::content_end(t, row);
    if backward {
        doing::tally(stands(t, c), text::row_start(t, row), motion::at_most(origin, end))
    } else {
        doing::tally(stands(t, c), origin + 1, end)
    }
}

/// Whether `p` is the `n`th place where `c` stands on the row of `from`, past `origin`
/// or before it, counted from there.
pub open spec fn nth(
    t: Seq<u8>,
    from: int,
    origin: int,
    c: char,
    backward: bool,
    n: int,
    p: int,
) -> bool {
    let row = text::row_of(t, from);
    let end = text::content_end(t, row);
    &&& stands(t, c)(p)
    &&& text::row_start(t, row) <= p < end
    &&& if backward {
        p < origin && doing::tally(stands(t, c), p + 1, motion::at_most(origin, end)) == n - 1
    } else {
        origin < p && doing::tally(stands(t, c), origin + 1, p) == n - 1
    }
}

/// Where the cursor goes for a target at `p`: there, or one character short of it.
pub open spec fn short_of(t: Seq<u8>, p: int, backward: bool, till: bool) -> int {
    if !till {
        p
    } else if backward {
        text::next(t, p)
    } else {
        text::prev(t, p)
    }
}

/// Scanning forward counts what stands past the origin.
proof fn lemma_nth_after(t: Seq<u8>, i: int, limit: int, origin: int, c: char, n: int)
    requires
        valid_utf8(t),
        text::bound(t, i),
        text::bound(t, limit),
        n >= 1,
    ensures
        ({
            let lo = if origin + 1 > i {
                origin + 1
            } else {
                i
            };
            match scan::nth_after(t, i, limit, origin, c, n) {
                Some(p) => stands(t, c)(p) && lo <= p < limit && doing::tally(
                    stands(t, c),
                    lo,
                    p,
                ) == n - 1 && n <= doing::tally(stands(t, c), lo, limit),
                None => doing::tally(stands(t, c), lo, limit) < n,
            }
        }),
    decreases limit - i,
{
    let f = stands(t, c);
    let lo = if origin + 1 > i {
        origin + 1
    } else {
        i
    };
    if i < limit {
        text::lemma_next(t, i);
        let j = text::next(t, i);
        if j > limit {
            assert(text::bound(t, limit));
        }
        let here = i > origin && text::char_at(t, i)->0 == c;
        let m = if here {
            n - 1
        } else {
            n
        };
        if here && n == 1 {
            assert(f(i));
            doing::lemma_tally_at(f, i, i, limit);
            doing::lemma_tally_split(f, i + 1, limit, limit);
        } else {
            lemma_nth_after(t, j, limit, origin, c, m);
            if i > origin {
                doing::lemma_tally_none(f, i + 1, j);
                doing::lemma_tally_at(f, i, i, limit);
                doing::lemma_tally_split(f, i + 1, j, limit);
                if let Some(p) = scan::nth_after(t, j, limit, origin, c, m) {
                    doing::lemma_tally_at(f, i, i, p);
                    doing::lemma_tally_split(f, i + 1, j, p);
                }
            } else if j > origin + 1 {
                doing::lemma_tally_none(f, origin + 1, j);
                doing::lemma_tally_split(f, origin + 1, j, limit);
                if let Some(p) = scan::nth_after(t, j, limit, origin, c, m) {
                    doing::lemma_tally_split(f, origin + 1, j, p);
                }
            }
        }
    }
}

/// Scanning backward counts what stands before the origin.
proof fn lemma_nth_before(t: Seq<u8>, i: int, limit: int, origin: int, c: char, n: int)
    requires
        valid_utf8(t),
        text::bound(t, i),
        text::bound(t, limit),
        limit <= i,
        n >= 1,
    ensures
        ({
            let hi = motion::at_most(origin, i);
            match scan::nth_before(t, i, limit, origin, c, n) {
                Some(p) => stands(t, c)(p) && limit <= p < hi && doing::tally(
                    stands(t, c),
                    p + 1,
                    hi,
                ) == n - 1 && n <= doing::tally(stands(t, c), limit, hi),
                None => doing::tally(stands(t, c), limit, hi) < n,
            }
        }),
    decreases i - limit,
{
    let f = stands(t, c);
    let hi = motion::at_most(origin, i);
    if limit < i {
        text::lemma_prev(t, i);
        let j = text::prev(t, i);
        if j < limit {
            assert(text::bound(t, limit));
        }
        let here = j < origin && text::char_at(t, j)->0 == c;
        let m = if here {
            n - 1
        } else {
            n
        };
        doing::lemma_tally_none(f, j + 1, hi);
        if here && n == 1 {
            assert(f(j));
            doing::lemma_tally_at(f, limit, j, hi);
            doing::lemma_tally_split(f, limit, j, j);
        } else {
            lemma_nth_before(t, j, limit, origin, c, m);
            if j < origin {
                doing::lemma_tally_at(f, limit, j, hi);
                if let Some(p) = scan::nth_before(t, j, limit, origin, c, m) {
                    doing::lemma_tally_at(f, p + 1, j, hi);
                }
            }
        }
    }
}

/// A find on the row counts.
pub(crate) proof fn lemma_found(t: Seq<u8>, from: int, find: Find, n: int, again: bool) -> (p: int)
    requires
        valid_utf8(t),
        text::bound(t, from),
        n >= 1,
    ensures
        ({
            let origin = motion::find_origin(t, from, find, again);
            let r = motion::found_in_row(t, from, find, n, again);
            &&& r is None <==> supply(t, from, origin, find.target, find.backward) < n
            &&& r is Some ==> nth(t, from, origin, find.target, find.backward, n, p) && r
                == Some(short_of(t, p, find.backward, find.till))
        }),
{
    let row = text::row_of(t, from);
    let s = text::row_start(t, row);
    let e = text::content_end(t, row);
    let origin = motion::find_origin(t, from, find, again);
    text::lemma_row_of(t, from);
    text::lemma_row_bounds(t, row);
    text::lemma_rows(t, row);
    if from < e {
        text::lemma_next(t, from);
    }
    if s < from {
        text::lemma_prev(t, from);
        if text::prev(t, from) < s {
            assert(text::bound(t, s));
        }
    }
    if find.backward {
        lemma_nth_before(t, e, s, origin, find.target, n);
        match scan::nth_before(t, e, s, origin, find.target, n) {
            Some(p) => p,
            None => 0,
        }
    } else {
        lemma_nth_after(t, s, e, origin, find.target, n);
        match scan::nth_after(t, s, e, origin, find.target, n) {
            Some(p) => p,
            None => 0,
        }
    }
}

/// What a motion comes to: it lands at the place next to `at` where the cursor may
/// rest, or rings and stays.
pub open spec fn landed(s: EditorState, key: Key, at: Option<int>) -> bool {
    let t = doing::after(s, key);
    &&& t.text == s.text
    &&& match at {
        Some(p) => t.cursor == grapheme::clamped(s.text, p, doing::resting(s.mode)) && doing::told(s, key) == Seq::<Effect>::empty(),
        None => t.cursor == s.cursor && doing::told(s, key) == seq![Effect::Bell],
    }
}

proof fn lemma_moved(s: EditorState, key: Key, motion: Motion<Seq<char>>, count: Option<usize>)
    requires
        doing::completes(s, key, Command::Move(motion), count),
        motion is Find || motion is RepeatFind,
    ensures
        landed(
            s,
            key,
            match motion {
                Motion::Find(find) => motion::found_in_row(
                    s.text,
                    s.cursor,
                    find,
                    doing::times(count),
                    false,
                ),
                Motion::RepeatFind { reverse } => match s.last_find {
                    None => None,
                    Some(find) => motion::found_in_row(
                        s.text,
                        s.cursor,
                        Find { backward: find.backward != reverse, ..find },
                        doing::times(count),
                        true,
                    ),
                },
                _ => None,
            },
        ),
        motion is RepeatFind ==> doing::after(s, key).last_find == s.last_find,
        motion matches Motion::Find(find) ==> doing::after(s, key).last_find
            == if motion::found_in_row(
            s.text,
            s.cursor,
            find,
            doing::times(count),
            false,
        ) is Some {
            Some(find)
        } else {
            s.last_find
        },
{
    doing::lemma_done(s, key, Command::Move(motion), count);
    reveal(Turn::acted);
    reveal(Turn::moved);
    reveal(motion::aimed);
    assert(Seq::<Effect>::empty().push(Effect::Bell) =~= seq![Effect::Bell]);
}

/// `f` and `t` go to the place, on the cursor's row and past the cursor, where the
/// character stands for the `n`th time, or one character short of it; `F` and `T` do so
/// before the cursor. Where it stands less often they ring. A find that lands is
/// remembered.
pub proof fn a_find_counts_its_targets(
    s: EditorState,
    key: Key,
    find: Find,
    count: Option<usize>,
) -> (p: int)
    requires
        s.wf(),
        doing::times(count) >= 1,
        doing::completes(s, key, Command::Move(Motion::Find(find)), count),
    ensures
        supply(s.text, s.cursor, s.cursor, find.target, find.backward) < doing::times(count)
            ==> landed(s, key, None) && doing::after(s, key).last_find == s.last_find,
        supply(s.text, s.cursor, s.cursor, find.target, find.backward) >= doing::times(count)
            ==> {
            &&& nth(s.text, s.cursor, s.cursor, find.target, find.backward, doing::times(count), p)
            &&& landed(s, key, Some(short_of(s.text, p, find.backward, find.till)))
            &&& doing::after(s, key).last_find == Some(find)
        },
{
    lemma_moved(s, key, Motion::Find(find), count);
    lemma_found(s.text, s.cursor, find, doing::times(count), false)
}

/// `;` repeats the last find in its direction and `,` in the other one: to places past
/// the cursor, or before it. Short of a target they do not stop where the cursor is.
/// They leave the find as it was remembered.
pub proof fn a_repeated_find_keeps_or_turns_its_direction(
    s: EditorState,
    key: Key,
    reverse: bool,
    count: Option<usize>,
) -> (p: int)
    requires
        s.wf(),
        doing::times(count) >= 1,
        doing::completes(s, key, Command::Move(Motion::RepeatFind { reverse }), count),
    ensures
        doing::after(s, key).last_find == s.last_find,
        s.last_find is None ==> landed(s, key, None),
        s.last_find matches Some(find) ==> {
            let backward = if reverse {
                !find.backward
            } else {
                find.backward
            };
            let at = short_of(s.text, p, backward, find.till);
            &&& landed(s, key, None) || {
                &&& landed(s, key, Some(at))
                &&& stands(s.text, find.target)(p)
                &&& text::row_of(s.text, p) == text::row_of(s.text, s.cursor)
                &&& if backward {
                    p < s.cursor && at < s.cursor
                } else {
                    s.cursor < p && s.cursor < at
                }
                &&& !find.till ==> nth(
                    s.text,
                    s.cursor,
                    s.cursor,
                    find.target,
                    backward,
                    doing::times(count),
                    p,
                )
                &&& find.till ==> nth(
                    s.text,
                    s.cursor,
                    s.cursor,
                    find.target,
                    backward,
                    doing::times(count),
                    p,
                ) && at != s.cursor || nth(
                    s.text,
                    s.cursor,
                    s.cursor,
                    find.target,
                    backward,
                    doing::times(count) + 1,
                    p,
                )
            }
            &&& !find.till && supply(s.text, s.cursor, s.cursor, find.target, backward)
                >= doing::times(count) ==> landed(s, key, Some(at))
            &&& find.till && supply(s.text, s.cursor, s.cursor, find.target, backward)
                > doing::times(count) ==> landed(s, key, Some(at))
        },
{
    lemma_moved(s, key, Motion::RepeatFind { reverse }, count);
    match s.last_find {
        None => 0,
        Some(last) => {
            let t = s.text;
            let from = s.cursor;
            let find = Find { backward: last.backward != reverse, ..last };
            let n = doing::times(count);
            let p = lemma_found(t, from, find, n, true);
            let row = text::row_of(t, from);
            let start = text::row_start(t, row);
            let end = text::content_end(t, row);
            let origin = motion::find_origin(t, from, find, true);
            let f = stands(t, find.target);
            text::lemma_row_of(t, from);
            text::lemma_row_bounds(t, row);
            text::lemma_rows(t, row);
            if from < end {
                text::lemma_next(t, from);
            }
            if start < from {
                text::lemma_prev(t, from);
                if text::prev(t, from) < start {
                    assert(text::bound(t, start));
                }
            }
            if find.backward {
                if origin < from {
                    doing::lemma_tally_none(f, origin + 1, from);
                    doing::lemma_tally_at(f, start, origin, from);
                }
            } else {
                if origin > from {
                    doing::lemma_tally_none(f, from + 1, origin);
                    if origin < end {
                        doing::lemma_tally_at(f, from + 1, origin, end);
                    } else {
                        doing::lemma_tally_split(f, from + 1, end, end);
                    }
                }
            }
            if motion::found_in_row(t, from, find, n, true) is Some {
                text::lemma_row_bytes(t, row, p);
                text::lemma_next(t, p);
                if p > 0 {
                    text::lemma_prev(t, p);
                }
                if find.backward {
                    if origin < from {
                        doing::lemma_tally_at(f, p + 1, origin, from);
                        if text::next(t, p) > origin {
                            assert(text::bound(t, origin));
                        }
                    } else if text::next(t, p) > end {
                        assert(text::bound(t, end));
                    }
                } else {
                    if origin > from {
                        doing::lemma_tally_at(f, from + 1, origin, p);
                        if text::prev(t, p) < origin {
                            assert(text::bound(t, origin));
                        }
                    }
                }
            }
            p
        },
    }
}

} // verus!
