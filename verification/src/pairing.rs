//! What brackets and quotes pair up with: `%`, and the text objects that pairs make.
//!
//! An opening and a closing bracket are a pair where as many open as close between them,
//! and at no place between them more have closed than opened.

use vstd::prelude::*;
use vstd::utf8::*;

use crate::aiming;
use crate::command::{Command, Motion, ObjectScope, TextObject};
use crate::doing;
use crate::effect::Effect;
use crate::finding;
use crate::finding::stands;
use crate::holding;
use crate::key::Key;
use crate::motion;
use crate::motion::Extent;
use crate::object;
use crate::scan;
use crate::state::{EditorState, Turn};
use crate::text;
use crate::unicode;

verus! {

/// How many more `open` than `close` stand from `i` up to `j`.
pub open spec fn balance(t: Seq<u8>, open: char, close: char, i: int, j: int) -> int {
    doing::tally(stands(t, open), i, j) - doing::tally(stands(t, close), i, j)
}

/// Whether the `open` at `a` and the `close` at `b` are a pair.
pub open spec fn pair(t: Seq<u8>, open: char, close: char, a: int, b: int) -> bool {
    &&& stands(t, open)(a)
    &&& stands(t, close)(b)
    &&& a < b
    &&& balance(t, open, close, a + 1, b) == 0
    &&& forall|x: int| a < x <= b ==> #[trigger] balance(t, open, close, a + 1, x) >= 0
}

proof fn lemma_balance_split(t: Seq<u8>, open: char, close: char, i: int, m: int, j: int)
    requires
        i <= m <= j,
    ensures
        balance(t, open, close, i, j) == balance(t, open, close, i, m) + balance(
            t,
            open,
            close,
            m,
            j,
        ),
{
    doing::lemma_tally_split(stands(t, open), i, m, j);
    doing::lemma_tally_split(stands(t, close), i, m, j);
}

/// What one character adds to the balance.
spec fn weight(t: Seq<u8>, open: char, close: char, i: int) -> int {
    if text::char_at(t, i) == Some(open) {
        1
    } else if text::char_at(t, i) == Some(close) {
        -1
    } else {
        0
    }
}

proof fn lemma_one(t: Seq<u8>, open: char, close: char, i: int)
    requires
        open != close,
        text::bound(t, i),
    ensures
        balance(t, open, close, i, i + 1) == weight(t, open, close, i),
        balance(t, open, close, i, i) == 0,
{
    doing::lemma_tally_at(stands(t, open), i, i, i + 1);
    doing::lemma_tally_at(stands(t, close), i, i, i + 1);
}

/// Nothing stands within a character.
proof fn lemma_within(t: Seq<u8>, open: char, close: char, i: int, x: int)
    requires
        valid_utf8(t),
        open != close,
        text::bound(t, i),
        i < t.len(),
        i < x,
    ensures
        x <= text::next(t, i) ==> balance(t, open, close, i, x) == weight(t, open, close, i),
        text::next(t, i) <= x ==> balance(t, open, close, i, x) == weight(t, open, close, i)
            + balance(t, open, close, text::next(t, i), x),
{
    text::lemma_next(t, i);
    let j = text::next(t, i);
    let k = if x < j {
        x
    } else {
        j
    };
    lemma_one(t, open, close, i);
    doing::lemma_tally_none(stands(t, open), i + 1, k);
    doing::lemma_tally_none(stands(t, close), i + 1, k);
    lemma_balance_split(t, open, close, i, i + 1, k);
    if j <= x {
        lemma_balance_split(t, open, close, i, j, x);
    }
}

/// The closing bracket that is found takes the depth to nought first.
proof fn lemma_close_after(t: Seq<u8>, i: int, depth: int, open: char, close: char)
    requires
        valid_utf8(t),
        open != close,
        text::bound(t, i),
        depth >= 0,
    ensures
        match scan::close_after(t, i, depth, open, close) {
            Some(e) => {
                &&& i <= e < t.len()
                &&& stands(t, close)(e)
                &&& depth + balance(t, open, close, i, e) == 0
                &&& forall|x: int|
                    i <= x <= e ==> depth + #[trigger] balance(t, open, close, i, x) >= 0
            },
            None => forall|x: int|
                i <= x <= t.len() ==> depth + #[trigger] balance(t, open, close, i, x) >= 0,
        },
    decreases t.len() - i,
{
    lemma_one(t, open, close, i);
    if i < t.len() {
        text::lemma_next(t, i);
        let j = text::next(t, i);
        let w = weight(t, open, close, i);
        if !(w == -1 && depth == 0) {
            lemma_close_after(t, j, depth + w, open, close);
            assert forall|x: int| i < x implies (x <= j ==> #[trigger] balance(
                t,
                open,
                close,
                i,
                x,
            ) == w) && (j <= x ==> balance(t, open, close, i, x) == w + balance(
                t,
                open,
                close,
                j,
                x,
            )) by {
                lemma_within(t, open, close, i, x);
            }
        }
    }
}

/// The opening bracket that is found takes the depth to nought first, going back.
proof fn lemma_open_before(t: Seq<u8>, i: int, depth: int, open: char, close: char)
    requires
        valid_utf8(t),
        open != close,
        text::bound(t, i),
        depth >= 0,
    ensures
        match scan::open_before(t, i, depth, open, close) {
            Some(p) => {
                &&& 0 <= p < i
                &&& stands(t, open)(p)
                &&& balance(t, open, close, p + 1, i) == depth
                &&& forall|x: int|
                    p < x <= i ==> #[trigger] balance(t, open, close, x, i) <= depth
            },
            None => forall|x: int|
                0 <= x <= i ==> #[trigger] balance(t, open, close, x, i) <= depth,
        },
    decreases i,
{
    lemma_one(t, open, close, i);
    if i > 0 {
        text::lemma_prev(t, i);
        let j = text::prev(t, i);
        let w = weight(t, open, close, j);
        lemma_within(t, open, close, j, i);
        if w == 1 && depth == 0 {
            lemma_balance_split(t, open, close, j, j + 1, i);
            lemma_one(t, open, close, j);
            assert forall|x: int| j < x <= i implies #[trigger] balance(t, open, close, x, i)
                <= depth by {
                lemma_tail(t, open, close, j, x, i);
            }
        } else {
            lemma_open_before(t, j, depth - w, open, close);
            assert forall|x: int| 0 <= x <= i implies (x <= j ==> #[trigger] balance(
                t,
                open,
                close,
                x,
                i,
            ) == balance(t, open, close, x, j) + w) && (j < x ==> balance(t, open, close, x, i)
                == 0) by {
                if x <= j {
                    lemma_balance_split(t, open, close, x, j, i);
                } else {
                    lemma_tail(t, open, close, j, x, i);
                }
            }
        }
    }
}

proof fn lemma_tail(t: Seq<u8>, open: char, close: char, j: int, x: int, i: int)
    requires
        j < x <= i,
        forall|k: int| j < k < i ==> !text::bound(t, k),
    ensures
        balance(t, open, close, x, i) == 0,
{
    doing::lemma_tally_none(stands(t, open), x, i);
    doing::lemma_tally_none(stands(t, close), x, i);
}

/// The pair around a place is the innermost of all that enclose it, and where none is
/// found none does.
pub proof fn the_pair_around_a_place_is_the_innermost(
    t: Seq<u8>,
    at: int,
    open: char,
    close: char,
)
    requires
        valid_utf8(t),
        text::bound(t, at),
        open != close,
    ensures
        match scan::enclosing_pair(t, at, open, close) {
            Some((a, b)) => {
                &&& pair(t, open, close, a, b)
                &&& a <= at <= b
                &&& forall|x: int, y: int| #[trigger]
                    pair(t, open, close, x, y) && x <= at <= y ==> x <= a && b <= y
            },
            None => forall|x: int, y: int| !(#[trigger] pair(t, open, close, x, y) && x <= at
                <= y),
        },
{
    let start = if text::char_at(t, at) == Some(open) {
        Some(at)
    } else {
        scan::open_before(t, at, 0, open, close)
    };
    lemma_one(t, open, close, at);
    if text::char_at(t, at) != Some(open) {
        lemma_open_before(t, at, 0, open, close);
    }
    match start {
        None => {
            assert forall|x: int, y: int| !(#[trigger] pair(t, open, close, x, y) && x <= at
                <= y) by {
                if pair(t, open, close, x, y) && x <= at <= y {
                    if x < at {
                        lemma_balance_split(t, open, close, x, x + 1, at);
                        lemma_one(t, open, close, x);
                        assert(balance(t, open, close, x + 1, at) >= 0);
                        assert(balance(t, open, close, x, at) <= 0);
                    }
                }
            }
        },
        Some(a) => {
            text::lemma_next(t, a);
            let n = text::next(t, a);
            lemma_close_after(t, n, 0, open, close);
            assert forall|x: int| a < x implies (x <= n ==> #[trigger] balance(
                t,
                open,
                close,
                a + 1,
                x,
            ) == 0) && (n <= x ==> balance(t, open, close, a + 1, x) == balance(
                t,
                open,
                close,
                n,
                x,
            )) by {
                let k = if x < n {
                    x
                } else {
                    n
                };
                doing::lemma_tally_none(stands(t, open), a + 1, k);
                doing::lemma_tally_none(stands(t, close), a + 1, k);
                if n <= x {
                    lemma_balance_split(t, open, close, a + 1, n, x);
                }
            }
            // no pair that encloses the place begins past `a`, and one that begins
            // before it ends past what closes `a`
            assert forall|x: int, y: int| #[trigger]
                pair(t, open, close, x, y) && x <= at <= y implies x <= a && balance(
                t,
                open,
                close,
                a + 1,
                y + 1,
            ) < 0 by {
                if a < x {
                    if x < at {
                        lemma_balance_split(t, open, close, x, x + 1, at);
                        lemma_one(t, open, close, x);
                        assert(balance(t, open, close, x + 1, at) >= 0);
                        assert(balance(t, open, close, x, at) <= 0);
                    }
                    assert(false);
                }
                lemma_one(t, open, close, y);
                lemma_balance_split(t, open, close, x + 1, y, y + 1);
                if a < y {
                    lemma_balance_split(t, open, close, x + 1, a + 1, y + 1);
                    if x < a {
                        assert(balance(t, open, close, x + 1, a + 1) >= 0);
                    } else {
                        lemma_one(t, open, close, a);
                        assert(balance(t, open, close, a + 1, a + 1) == 0) by {
                            doing::lemma_tally_none(stands(t, open), a + 1, a + 1);
                            doing::lemma_tally_none(stands(t, close), a + 1, a + 1);
                        }
                    }
                } else {
                    assert(stands(t, open)(a) && stands(t, close)(y));
                    assert(false);
                }
            }
            match scan::close_after(t, n, 0, open, close) {
                None => {
                    assert forall|x: int, y: int| !(#[trigger] pair(t, open, close, x, y) && x
                        <= at <= y) by {
                        if pair(t, open, close, x, y) && x <= at <= y {
                            assert(balance(t, open, close, a + 1, y + 1) < 0);
                            if n <= y + 1 {
                                assert(balance(t, open, close, n, y + 1) >= 0);
                            }
                        }
                    }
                },
                Some(b) => {
                    assert forall|x: int| a < x <= b implies #[trigger] balance(
                        t,
                        open,
                        close,
                        a + 1,
                        x,
                    ) >= 0 by {
                        if n <= x {
                            assert(balance(t, open, close, n, x) >= 0);
                        }
                    }
                    assert(pair(t, open, close, a, b));
                    if b < at {
                        lemma_one(t, open, close, b);
                        lemma_balance_split(t, open, close, a + 1, b, b + 1);
                        lemma_balance_split(t, open, close, a + 1, b + 1, at);
                        assert(balance(t, open, close, b + 1, at) <= 0);
                        assert(balance(t, open, close, a + 1, at) == 0);
                        assert(false);
                    }
                    assert forall|x: int, y: int| #[trigger]
                        pair(t, open, close, x, y) && x <= at <= y implies x <= a && b <= y by {
                        if y < b {
                            assert(balance(t, open, close, a + 1, y + 1) < 0);
                            assert(balance(t, open, close, a + 1, y + 1) >= 0);
                        }
                    }
                },
            }
        },
    }
}

/// Whether `c` is a bracket that `%` knows.
pub open spec fn bracket(c: char) -> bool {
    c == '(' || c == ')' || c == '[' || c == ']' || c == '{' || c == '}'
}

/// Whether brackets of one kind at `p` and `q` are a pair.
pub open spec fn partners(t: Seq<u8>, p: int, q: int) -> bool {
    ||| pair(t, '(', ')', p, q)
    ||| pair(t, '(', ')', q, p)
    ||| pair(t, '[', ']', p, q)
    ||| pair(t, '[', ']', q, p)
    ||| pair(t, '{', '}', p, q)
    ||| pair(t, '{', '}', q, p)
}

/// Whether `p` is the first bracket from `i` up to `limit`.
pub open spec fn first(t: Seq<u8>, i: int, limit: int, p: int) -> bool {
    &&& i <= p < limit
    &&& text::bound(t, p)
    &&& bracket(text::char_at(t, p)->0)
    &&& forall|j: int|
        i <= j < p && #[trigger] text::bound(t, j) ==> !bracket(text::char_at(t, j)->0)
}

proof fn lemma_first_bracket(t: Seq<u8>, i: int, limit: int)
    requires
        valid_utf8(t),
        text::bound(t, i),
        limit <= t.len(),
    ensures
        match motion::first_bracket(t, i, limit) {
            Some(p) => first(t, i, limit, p),
            None => forall|j: int|
                i <= j < limit && #[trigger] text::bound(t, j) ==> !bracket(
                    text::char_at(t, j)->0,
                ),
        },
    decreases scan::gap(i, limit),
{
    if i < limit && motion::bracket_pair(text::char_at(t, i)->0) is None {
        text::lemma_next(t, i);
        lemma_first_bracket(t, text::next(t, i), limit);
    }
}

proof fn lemma_first_quote(t: Seq<u8>, i: int, limit: int)
    requires
        0 <= i,
        limit <= t.len(),
    ensures
        motion::first_quote(t, i, limit) matches Some(p) ==> 0 <= p <= t.len(),
    decreases scan::gap(i, limit),
{
    if i < limit && !motion::is_quote(text::char_at(t, i)->0) && i < text::next(t, i) {
        lemma_first_quote(t, text::next(t, i), limit);
    }
}

/// `%` goes from the first bracket on the row, at or past the cursor, to its partner, and
/// rings where it has none.
pub proof fn percent_goes_to_the_partner(s: EditorState, key: Key, count: Option<usize>) -> (r: (
    int,
    int,
))
    requires
        s.wf(),
        doing::completes(s, key, Command::Move(Motion::MatchPair), count),
    ensures
        ({
            let t = s.text;
            let limit = text::content_end(t, text::row_of(t, s.cursor));
            let (p, q) = r;
            (exists|x: int| #[trigger] first(t, s.cursor, limit, x)) ==> {
                &&& first(t, s.cursor, limit, p)
                &&& finding::landed(s, key, Some(q)) && partners(t, p, q) || finding::landed(
                    s,
                    key,
                    None,
                ) && forall|x: int| !partners(t, p, x)
            }
        }),
{
    let t = s.text;
    let row = text::row_of(t, s.cursor);
    let limit = text::content_end(t, row);
    doing::lemma_done(s, key, Command::Move(Motion::MatchPair), count);
    reveal(Turn::acted);
    reveal(Turn::moved);
    reveal(motion::aimed);
    assert(Seq::<Effect>::empty().push(Effect::Bell) =~= seq![Effect::Bell]);
    text::lemma_row_of(t, s.cursor);
    text::lemma_rows(t, row);
    lemma_first_bracket(t, s.cursor, limit);
    match motion::first_bracket(t, s.cursor, limit) {
        None => {
            assert forall|x: int| !#[trigger] first(t, s.cursor, limit, x) by {}
            (0, 0)
        },
        Some(p) => {
            let (open, close) = motion::bracket_pair(text::char_at(t, p)->0)->0;
            the_pair_around_a_place_is_the_innermost(t, p, open, close);
            let q = lemma_partner(t, p, open, close);
            (p, q)
        },
    }
}

/// What `%` aims at.
pub(crate) proof fn lemma_matched(t: Seq<u8>, at: int)
    requires
        valid_utf8(t),
        text::bound(t, at),
    ensures
        ({
            let limit = text::content_end(t, text::row_of(t, at));
            match motion::matched(t, at) {
                Some(q) => 0 <= q && forall|x: int| #[trigger]
                    first(t, at, limit, x) ==> partners(t, x, q),
                None => forall|x: int, q: int| #[trigger]
                    first(t, at, limit, x) ==> !#[trigger] partners(t, x, q),
            }
        }),
{
    let row = text::row_of(t, at);
    let limit = text::content_end(t, row);
    text::lemma_row_of(t, at);
    text::lemma_rows(t, row);
    lemma_first_bracket(t, at, limit);
    match motion::first_bracket(t, at, limit) {
        None => {
            assert forall|x: int| !#[trigger] first(t, at, limit, x) by {}
            if let Some(p) = motion::first_quote(t, at, limit) {
                let quote = text::char_at(t, p)->0;
                let start = text::row_start(t, text::row_of(t, p));
                lemma_first_quote(t, at, limit);
                text::lemma_row_of(t, p);
                text::lemma_row_bounds(t, text::row_of(t, p));
                text::lemma_rows(t, text::row_of(t, p));
                assert(doing::tally(stands(t, quote), start, start) == 0);
                holding::lemma_quote_pair(
                    t,
                    start,
                    start,
                    text::content_end(t, text::row_of(t, p)),
                    p,
                    quote,
                );
            }
        },
        Some(p) => {
            let (open, close) = motion::bracket_pair(text::char_at(t, p)->0)->0;
            let q = lemma_partner(t, p, open, close);
            assert forall|x: int| #[trigger] first(t, at, limit, x) implies x == p by {
                if x < p {
                    assert(text::bound(t, x));
                }
                if p < x {
                    assert(text::bound(t, p));
                }
            }
        },
    }
}

/// The other end of the pair that a bracket belongs to.
proof fn lemma_partner(t: Seq<u8>, p: int, open: char, close: char) -> (q: int)
    requires
        valid_utf8(t),
        text::bound(t, p),
        p < t.len(),
        text::char_at(t, p) == Some(open) || text::char_at(t, p) == Some(close),
        motion::bracket_pair(text::char_at(t, p)->0) == Some((open, close)),
    ensures
        match motion::other_end(scan::enclosing_pair(t, p, open, close), p) {
            Some(x) => x == q && partners(t, p, q),
            None => forall|x: int| !partners(t, p, x),
        },
{
    the_pair_around_a_place_is_the_innermost(t, p, open, close);
    let c = text::char_at(t, p)->0;
    assert forall|x: int| #[trigger] partners(t, p, x) implies (if c == open {
        pair(t, open, close, p, x)
    } else {
        pair(t, open, close, x, p)
    }) by {}
    match scan::enclosing_pair(t, p, open, close) {
        Some((a, b)) => {
            if c == open {
                assert(a == p);
                b
            } else {
                // the place is a closing bracket, so the balance drops past it
                assert(a < p);
                if p < b {
                    lemma_one(t, open, close, p);
                    lemma_balance_split(t, open, close, a + 1, p, p + 1);
                    lemma_balance_here(t, open, close, a, p);
                    assert(balance(t, open, close, a + 1, p + 1) >= 0);
                    assert(false);
                }
                a
            }
        },
        None => {
            0
        },
    }
}

/// At a closing bracket the balance from the bracket that is open there is nought.
proof fn lemma_balance_here(t: Seq<u8>, open: char, close: char, a: int, p: int)
    requires
        valid_utf8(t),
        text::bound(t, p),
        open != close,
        text::char_at(t, p) == Some(close),
        scan::enclosing_pair(t, p, open, close) matches Some((x, _)) && x == a,
    ensures
        balance(t, open, close, a + 1, p) == 0,
{
    lemma_open_before(t, p, 0, open, close);
}

/// At one level a bracket object is the pair around the cursor.
proof fn lemma_object(t: Seq<u8>, at: int, open: char, close: char, scope: ObjectScope)
    requires
        scan::enclosing_pair(t, at, open, close) is Some,
    ensures
        object::object_extent(t, at, scope, TextObject::Delimited { open, close }, 1) == Some(
            object::pair_extent(t, scan::enclosing_pair(t, at, open, close)->0, scope),
        ),
{
    reveal(object::object_extent);
}

/// A bracket object is the innermost pair around the cursor: with its brackets for `a`,
/// and for `i`, where both stand on one row, all that is between them.
pub proof fn an_object_covers_the_pair_around_it(
    t: Seq<u8>,
    at: int,
    open: char,
    close: char,
) -> (r: (int, int))
    requires
        valid_utf8(t),
        text::bound(t, at),
        open != close,
    ensures
        ({
            let (a, b) = r;
            let object = TextObject::Delimited { open, close };
            let row = text::row_of(t, a);
            (exists|x: int, y: int| #[trigger] pair(t, open, close, x, y) && x <= at <= y) ==> {
                &&& pair(t, open, close, a, b)
                &&& a <= at <= b
                &&& forall|x: int, y: int| #[trigger]
                    pair(t, open, close, x, y) && x <= at <= y ==> x <= a && b <= y
                &&& object::object_extent(t, at, ObjectScope::Around, object, 1) == Some(
                    Extent::Chars { start: a, end: text::next(t, b) },
                )
                &&& text::row_of(t, b) == row && b < text::content_end(t, row)
                    && !unicode::is_space(open) ==> object::object_extent(
                    t,
                    at,
                    ObjectScope::Inner,
                    object,
                    1,
                ) == Some(Extent::Chars { start: text::next(t, a), end: b })
            }
        }),
{
    the_pair_around_a_place_is_the_innermost(t, at, open, close);
    match scan::enclosing_pair(t, at, open, close) {
        Some((a, b)) => {
            assert(pair(t, open, close, a, b));
            lemma_object(t, at, open, close, ObjectScope::Around);
            lemma_object(t, at, open, close, ObjectScope::Inner);
            lemma_inside_row(t, a, b);
            (a, b)
        },
        None => (0, 0),
    }
}

/// On one row the inside of a pair is all that stands between.
pub(crate) proof fn lemma_inside_row(t: Seq<u8>, a: int, b: int)
    requires
        valid_utf8(t),
        text::bound(t, a),
        text::bound(t, b),
        0 <= a < b < t.len(),
    ensures
        text::row_of(t, a) == text::row_of(t, b) && b < text::content_end(t, text::row_of(t, a))
            && !unicode::is_space(text::char_at(t, a)->0) ==> object::inside(t, a, b) == (
            text::next(t, a),
            b,
        ),
{
    if text::row_of(t, a) == text::row_of(t, b) && b < text::content_end(t, text::row_of(t, a))
        && !unicode::is_space(text::char_at(t, a)->0) {
        let row = text::row_of(t, a);
        text::lemma_next(t, a);
        text::lemma_row_of(t, a);
        text::lemma_row_of(t, b);
        text::lemma_rows(t, row);
        let s = text::row_start(t, row);
        text::lemma_row_bounds(t, row);
        aiming::lemma_skip_space(t, s, b);
        assert(!scan::all_space(t, s, b));
        assert(text::next(t, a) <= b);
    }
}

// ---------------------------------------------------------------------------
// levels
// ---------------------------------------------------------------------------

/// Whether the brackets at `a` and `b` are the innermost pair around `at`.
pub open spec fn innermost(t: Seq<u8>, open: char, close: char, at: int, a: int, b: int) -> bool {
    &&& pair(t, open, close, a, b)
    &&& a <= at <= b
    &&& forall|x: int, y: int| #[trigger]
        pair(t, open, close, x, y) && x <= at <= y ==> x <= a && b <= y
}

proof fn lemma_climbed(t: Seq<u8>, p: (int, int), open: char, close: char, n: int)
    requires
        n >= 0,
    ensures
        object::climbed(t, p, open, close, n + 1) == match object::climbed(
            t,
            p,
            open,
            close,
            n,
        ) {
            Some(q) => object::climbed(t, q, open, close, 1),
            None => None,
        },
    decreases n,
{
    if n > 0 && p.0 != 0 {
        match scan::enclosing_pair(t, text::prev(t, p.0), open, close) {
            None => {},
            Some((s, e)) => {
                if !(s >= p.0 || e <= p.1) {
                    lemma_climbed(t, (s, e), open, close, n - 1);
                }
            },
        }
    }
}

/// What a bracket object of `count` levels is made of.
proof fn lemma_level(t: Seq<u8>, at: int, open: char, close: char, scope: ObjectScope, count: int)
    requires
        scan::enclosing_pair(t, at, open, close) is Some,
        count >= 1,
    ensures
        object::object_extent(t, at, scope, TextObject::Delimited { open, close }, count)
            == match object::climbed(
            t,
            scan::enclosing_pair(t, at, open, close)->0,
            open,
            close,
            count - 1,
        ) {
            Some(p) => Some(object::pair_extent(t, p, scope)),
            None => None,
        },
{
    reveal(object::object_extent);
}

/// Whether a bracket object of `count` levels, with its brackets, is the pair `a`, `b`.
pub open spec fn at_level(
    t: Seq<u8>,
    at: int,
    open: char,
    close: char,
    count: int,
    a: int,
    b: int,
) -> bool {
    object::object_extent(
        t,
        at,
        ObjectScope::Around,
        TextObject::Delimited { open, close },
        count,
    ) == Some(Extent::Chars { start: a, end: text::next(t, b) })
}

/// A count takes a bracket object out by one level more: to the innermost pair around the
/// character before it, where that pair contains it. Where it does not, there is no such
/// object.
pub proof fn a_count_takes_an_object_out(
    t: Seq<u8>,
    at: int,
    open: char,
    close: char,
    count: int,
) -> (r: ((int, int), (int, int)))
    requires
        valid_utf8(t),
        text::bound(t, at),
        open != close,
        count >= 1,
    ensures
        ({
            let ((a, b), (s, e)) = r;
            let object = TextObject::Delimited { open, close };
            let more = object::object_extent(t, at, ObjectScope::Around, object, count + 1);
            (exists|x: int, y: int| #[trigger] pair(t, open, close, x, y) && x <= at <= y)
                && object::object_extent(t, at, ObjectScope::Around, object, count) is Some ==> {
                &&& pair(t, open, close, a, b)
                &&& at_level(t, at, open, close, count, a, b)
                &&& if more is Some {
                    &&& at_level(t, at, open, close, count + 1, s, e)
                    &&& a > 0
                    &&& innermost(t, open, close, text::prev(t, a), s, e)
                    &&& s < a && b < e
                } else {
                    a == 0 || forall|x: int, y: int| #[trigger]
                        innermost(t, open, close, text::prev(t, a), x, y) ==> !(x < a && b < y)
                }
            }
        }),
{
    the_pair_around_a_place_is_the_innermost(t, at, open, close);
    match scan::enclosing_pair(t, at, open, close) {
        None => ((0, 0), (0, 0)),
        Some(first) => {
            lemma_level(t, at, open, close, ObjectScope::Around, count);
            lemma_level(t, at, open, close, ObjectScope::Around, count + 1);
            lemma_climbed(t, first, open, close, count - 1);
            match object::climbed(t, first, open, close, count - 1) {
                None => ((0, 0), (0, 0)),
                Some((a, b)) => {
                    lemma_still_pair(t, first, open, close, count - 1);
                    if a == 0 {
                        ((a, b), (0, 0))
                    } else {
                        text::lemma_prev(t, a);
                        let p = text::prev(t, a);
                        the_pair_around_a_place_is_the_innermost(t, p, open, close);
                        match scan::enclosing_pair(t, p, open, close) {
                            None => ((a, b), (0, 0)),
                            Some((s, e)) => {
                                assert(innermost(t, open, close, p, s, e));
                                assert(object::climbed(t, (s, e), open, close, 0) == Some((s, e)));
                                ((a, b), (s, e))
                            },
                        }
                    }
                },
            }
        },
    }
}

proof fn lemma_still_pair(t: Seq<u8>, p: (int, int), open: char, close: char, n: int)
    requires
        valid_utf8(t),
        open != close,
        pair(t, open, close, p.0, p.1),
        n >= 0,
    ensures
        object::climbed(t, p, open, close, n) matches Some(q) ==> pair(t, open, close, q.0, q.1),
    decreases n,
{
    if n > 0 && p.0 != 0 {
        text::lemma_prev(t, p.0);
        let k = text::prev(t, p.0);
        the_pair_around_a_place_is_the_innermost(t, k, open, close);
        match scan::enclosing_pair(t, k, open, close) {
            None => {},
            Some((s, e)) => {
                if !(s >= p.0 || e <= p.1) {
                    lemma_still_pair(t, (s, e), open, close, n - 1);
                }
            },
        }
    }
}

/// Whether `p` is the first `open` from `i` up to `limit`, with no `close` before it.
pub open spec fn opens_next(t: Seq<u8>, i: int, limit: int, open: char, close: char, p: int) -> bool {
    &&& i <= p < limit
    &&& stands(t, open)(p)
    &&& forall|j: int|
        i <= j < p && #[trigger] text::bound(t, j) ==> text::char_at(t, j) != Some(open)
            && text::char_at(t, j) != Some(close)
}

proof fn lemma_next_open(t: Seq<u8>, i: int, limit: int, open: char, close: char)
    requires
        valid_utf8(t),
        text::bound(t, i),
        limit <= t.len(),
    ensures
        match scan::next_open(t, i, limit, open, close) {
            Some(p) => opens_next(t, i, limit, open, close, p),
            None => forall|p: int| !#[trigger] opens_next(t, i, limit, open, close, p),
        },
    decreases scan::gap(i, limit),
{
    if i < limit {
        text::lemma_next(t, i);
        let n = text::next(t, i);
        let c = text::char_at(t, i)->0;
        if c != open && c != close {
            lemma_next_open(t, n, limit, open, close);
            assert forall|p: int| #[trigger] opens_next(t, i, limit, open, close, p) <==> opens_next(
                t,
                n,
                limit,
                open,
                close,
                p,
            ) by {
                if opens_next(t, n, limit, open, close, p) {
                    assert forall|j: int| i <= j < p && #[trigger] text::bound(t, j) implies
                        text::char_at(t, j) != Some(open) && text::char_at(t, j) != Some(
                        close,
                    ) by {
                        if j < n {
                            assert(j == i);
                        }
                    }
                }
                if opens_next(t, i, limit, open, close, p) {
                    if p < n {
                        assert(p == i);
                    }
                }
            }
        } else if c != open {
            assert forall|p: int| !#[trigger] opens_next(t, i, limit, open, close, p) by {
                if opens_next(t, i, limit, open, close, p) && i < p {
                    assert(text::bound(t, i));
                }
            }
        }
    }
}

/// Inside no pair, a bracket object is the next pair ahead, if no closing bracket comes
/// before it.
pub proof fn an_object_looks_ahead(t: Seq<u8>, at: int, open: char, close: char) -> (r: (int, int))
    requires
        valid_utf8(t),
        text::bound(t, at),
        open != close,
    ensures
        (forall|x: int, y: int| !(#[trigger] pair(t, open, close, x, y) && x <= at <= y)) ==> ({
            let (a, b) = r;
            let e = object::object_extent(
                t,
                at,
                ObjectScope::Around,
                TextObject::Delimited { open, close },
                1,
            );
            if e is Some {
                &&& opens_next(t, at, t.len() as int, open, close, a)
                &&& pair(t, open, close, a, b)
                &&& e == Some(Extent::Chars { start: a, end: text::next(t, b) })
            } else {
                forall|p: int, q: int| #[trigger]
                    pair(t, open, close, p, q) ==> !opens_next(
                        t,
                        at,
                        t.len() as int,
                        open,
                        close,
                        p,
                    )
            }
        }),
{
    the_pair_around_a_place_is_the_innermost(t, at, open, close);
    if scan::enclosing_pair(t, at, open, close) is Some {
        (0, 0)
    } else {
        reveal(object::object_extent);
        lemma_next_open(t, at, t.len() as int, open, close);
        match scan::next_open(t, at, t.len() as int, open, close) {
            None => (0, 0),
            Some(p) => {
                the_pair_around_a_place_is_the_innermost(t, p, open, close);
                assert forall|x: int| #[trigger]
                    opens_next(t, at, t.len() as int, open, close, x) implies x == p by {
                    if x < p {
                        assert(text::bound(t, x));
                    }
                    if p < x {
                        assert(text::bound(t, p));
                    }
                }
                match scan::enclosing_pair(t, p, open, close) {
                    None => (0, 0),
                    Some((a, b)) => {
                        assert(a == p);
                        assert(object::descended(t, (a, b), open, close, 0) == Some((a, b)));
                        (a, b)
                    },
                }
            },
        }
    }
}

} // verus!
