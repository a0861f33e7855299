//! What searching promises: `/`, `?`, `n` and `N`.

use vstd::prelude::*;
use vstd::utf8::*;

use crate::command::{Command, Motion, Operator};
use crate::doing;
use crate::effect::Effect;
use crate::finding;
use crate::key::Key;
use crate::motion;
use crate::search;
use crate::spans;
use crate::state::{EditorState, Turn};
use crate::text;
use crate::unicode;

verus! {

/// Whether `pattern` holds an uppercase character.
pub open spec fn shouts(pattern: Seq<char>) -> bool {
    exists|i: int| 0 <= i < pattern.len() && unicode::is_upper(#[trigger] pattern[i])
}

/// Whether the text from `o` up to `e` is `pattern`: letter for letter where the pattern
/// holds an uppercase character, and regardless of case where it holds none.
pub open spec fn spells(t: Seq<u8>, pattern: Seq<char>, o: int, e: int) -> bool {
    &&& o < e <= t.len()
    &&& text::bound(t, o)
    &&& text::bound(t, e)
    &&& if shouts(pattern) {
        decode_utf8(t.subrange(o, e)) == pattern
    } else {
        spans::all_cased(decode_utf8(t.subrange(o, e)), Operator::Lower) == spans::all_cased(
            pattern,
            Operator::Lower,
        )
    }
}

/// Whether a grapheme of `t` begins at `o`.
pub open spec fn begins(t: Seq<u8>, o: int) -> bool {
    exists|i: int|
        0 <= i < unicode::grapheme_starts(decode_utf8(t)).len()
            && #[trigger] unicode::grapheme_starts(decode_utf8(t))[i] == o
}

/// The places where `pattern` stands.
pub open spec fn hit(t: Seq<u8>, pattern: Seq<char>) -> spec_fn(int) -> bool {
    |o: int| begins(t, o) && exists|e: int| #[trigger] spells(t, pattern, o, e)
}

/// How many times `pattern` stands in `t`.
pub open spec fn hits(t: Seq<u8>, pattern: Seq<char>) -> int {
    doing::tally(hit(t, pattern), 0, t.len() as int)
}

/// Whether `q` is the `n`th match from `x`, `laps` times around the text: ahead, of those
/// past `x`; back, of those before it.
pub open spec fn nth_hit(
    t: Seq<u8>,
    pattern: Seq<char>,
    x: int,
    backward: bool,
    n: int,
    laps: int,
    q: int,
) -> bool {
    let f = hit(t, pattern);
    &&& f(q)
    &&& 0 <= q < t.len()
    &&& if backward {
        doing::tally(f, 0, q) == doing::tally(f, 0, x) - n + laps * hits(t, pattern)
    } else {
        doing::tally(f, 0, q + 1) == doing::tally(f, 0, x + 1) + n - laps * hits(t, pattern)
    }
}

// ---------------------------------------------------------------------------
// matches
// ---------------------------------------------------------------------------

/// The first character of a piece of text, and the rest of it.
proof fn lemma_read(t: Seq<u8>, o: int, e: int)
    requires
        valid_utf8(t),
        text::bound(t, o),
        text::bound(t, e),
        o < e,
    ensures
        o < text::next(t, o) <= e,
        text::bound(t, text::next(t, o)),
        decode_utf8(t.subrange(o, e)) == seq![text::char_at(t, o)->0] + decode_utf8(
            t.subrange(text::next(t, o), e),
        ),
{
    text::lemma_next(t, o);
    text::lemma_slice(t, o, e, 0);
    let s = t.subrange(o, e);
    assert(s.subrange(0, s.len() as int) =~= s);
    decode_utf8_first_scalar(s);
    let k = length_of_first_scalar(s);
    assert(take_first_scalar(s).len() == k);
    assert(text::next(s, 0) == k);
    assert(pop_first_scalar(s) =~= t.subrange(text::next(t, o), e));
}

/// Casing a piece of text cases its first character and the rest of it.
proof fn lemma_cased_front(c: char, rest: Seq<char>, operator: Operator)
    ensures
        spans::all_cased(seq![c] + rest, operator) == spans::cased(c, operator) + spans::all_cased(
            rest,
            operator,
        ),
    decreases rest.len(),
{
    let whole = seq![c] + rest;
    if rest.len() == 0 {
        assert(whole.drop_last() =~= Seq::<char>::empty());
        assert(whole.last() == c);
        assert(spans::all_cased(rest, operator) =~= Seq::<char>::empty());
        assert(spans::all_cased(whole.drop_last(), operator) =~= Seq::<char>::empty());
        assert(spans::all_cased(whole, operator) =~= spans::cased(c, operator) + spans::all_cased(
            rest,
            operator,
        ));
    } else {
        lemma_cased_front(c, rest.drop_last(), operator);
        assert(whole.drop_last() =~= seq![c] + rest.drop_last());
        assert(spans::all_cased(whole, operator) =~= spans::cased(c, operator) + spans::all_cased(
            rest,
            operator,
        ));
    }
}

spec fn spelt(t: Seq<u8>, o: int, e: int, rest: Seq<char>) -> bool {
    o <= e <= t.len() && text::bound(t, e) && decode_utf8(t.subrange(o, e)) == rest
}

proof fn lemma_spelled(t: Seq<u8>, o: int, pattern: Seq<char>, i: int)
    requires
        valid_utf8(t),
        text::bound(t, o),
        0 <= i <= pattern.len(),
    ensures
        search::spelled_at(t, o, pattern, i) <==> exists|e: int| #[trigger]
            spelt(t, o, e, pattern.skip(i)),
    decreases pattern.len() - i,
{
    let rest = pattern.skip(i);
    if i == pattern.len() {
        assert(t.subrange(o, o) =~= Seq::<u8>::empty());
        assert(rest =~= decode_utf8(t.subrange(o, o)));
        assert(spelt(t, o, o, rest));
    } else {
        let tail = pattern.skip(i + 1);
        assert(rest =~= seq![pattern[i]] + tail);
        if o < t.len() {
            let n = text::next(t, o);
            text::lemma_next(t, o);
            lemma_spelled(t, n, pattern, i + 1);
            if search::spelled_at(t, o, pattern, i) {
                let e = choose|e: int| #[trigger] spelt(t, n, e, tail);
                lemma_read(t, o, e);
                assert(spelt(t, o, e, rest));
            }
        }
        if exists|e: int| #[trigger] spelt(t, o, e, rest) {
            let e = choose|e: int| #[trigger] spelt(t, o, e, rest);
            if e == o {
                assert(t.subrange(o, o) =~= Seq::<u8>::empty());
                assert(decode_utf8(t.subrange(o, e)).len() == 0);
                assert(rest.len() > 0);
                assert(false);
            }
            lemma_read(t, o, e);
            let n = text::next(t, o);
            let d = decode_utf8(t.subrange(n, e));
            assert((seq![text::char_at(t, o)->0] + d)[0] == rest[0]);
            assert((seq![text::char_at(t, o)->0] + d).skip(1) =~= d);
            assert(rest.skip(1) =~= tail);
            assert(spelt(t, n, e, tail));
        }
    }
}

spec fn comes(t: Seq<u8>, o: int, e: int, so_far: Seq<char>, goal: Seq<char>) -> bool {
    &&& o < e <= t.len()
    &&& text::bound(t, e)
    &&& so_far + spans::all_cased(decode_utf8(t.subrange(o, e)), Operator::Lower) == goal
}

proof fn lemma_folded(t: Seq<u8>, o: int, so_far: Seq<char>, goal: Seq<char>)
    requires
        valid_utf8(t),
        text::bound(t, o),
    ensures
        search::folded_at(t, o, so_far, goal) <==> exists|e: int| #[trigger]
            comes(t, o, e, so_far, goal),
    decreases t.len() - o,
{
    if o < t.len() {
        text::lemma_next(t, o);
        let n = text::next(t, o);
        let c = text::char_at(t, o)->0;
        let more = so_far + unicode::lower_of(c);
        lemma_folded(t, n, more, goal);
        lemma_read(t, o, n);
        assert(t.subrange(n, n) =~= Seq::<u8>::empty());
        assert(decode_utf8(t.subrange(o, n)) =~= seq![c] + Seq::<char>::empty());
        lemma_cased_front(c, Seq::empty(), Operator::Lower);
        assert(unicode::lower_of(c) + Seq::<char>::empty() =~= unicode::lower_of(c));
        if more == goal {
            assert(comes(t, o, n, so_far, goal));
        } else if search::folded_at(t, o, so_far, goal) {
            let e = choose|e: int| #[trigger] comes(t, n, e, more, goal);
            lemma_step(t, o, e, so_far);
            assert(comes(t, o, e, so_far, goal));
        }
        if exists|e: int| #[trigger] comes(t, o, e, so_far, goal) {
            let e = choose|e: int| #[trigger] comes(t, o, e, so_far, goal);
            lemma_step(t, o, e, so_far);
            if e == n {
                assert(more == goal);
            } else {
                assert(comes(t, n, e, more, goal));
            }
        }
    }
}

/// One character more, cased.
proof fn lemma_step(t: Seq<u8>, o: int, e: int, so_far: Seq<char>)
    requires
        valid_utf8(t),
        text::bound(t, o),
        text::bound(t, e),
        o < e,
    ensures
        text::next(t, o) <= e,
        so_far + spans::all_cased(decode_utf8(t.subrange(o, e)), Operator::Lower) == (so_far
            + unicode::lower_of(text::char_at(t, o)->0)) + spans::all_cased(
            decode_utf8(t.subrange(text::next(t, o), e)),
            Operator::Lower,
        ),
{
    lemma_read(t, o, e);
    let c = text::char_at(t, o)->0;
    let rest = decode_utf8(t.subrange(text::next(t, o), e));
    lemma_cased_front(c, rest, Operator::Lower);
    assert(so_far + (unicode::lower_of(c) + spans::all_cased(rest, Operator::Lower)) =~= (so_far
        + unicode::lower_of(c)) + spans::all_cased(rest, Operator::Lower));
}

proof fn lemma_lowered(s: Seq<char>)
    ensures
        search::lowered(s) == spans::all_cased(s, Operator::Lower),
    decreases s.len(),
{
    if s.len() > 0 {
        lemma_lowered(s.drop_last());
    }
}

/// A pattern matches where the text spells it.
proof fn lemma_matches(t: Seq<u8>, o: int, pattern: Seq<char>)
    requires
        valid_utf8(t),
        text::bound(t, o),
        pattern.len() > 0,
    ensures
        search::matches_at(t, o, pattern) <==> exists|e: int| #[trigger] spells(t, pattern, o, e),
{
    if search::sensitive(pattern) {
        lemma_spelled(t, o, pattern, 0);
        assert(pattern.skip(0) =~= pattern);
        if exists|e: int| #[trigger] spelt(t, o, e, pattern) {
            let e = choose|e: int| #[trigger] spelt(t, o, e, pattern);
            if e == o {
                assert(t.subrange(o, o) =~= Seq::<u8>::empty());
                assert(decode_utf8(t.subrange(o, e)).len() == 0);
            }
            assert(spells(t, pattern, o, e));
        }
        if exists|e: int| #[trigger] spells(t, pattern, o, e) {
            let e = choose|e: int| #[trigger] spells(t, pattern, o, e);
            assert(spelt(t, o, e, pattern));
        }
    } else {
        let goal = search::lowered(pattern);
        lemma_lowered(pattern);
        lemma_folded(t, o, Seq::empty(), goal);
        assert forall|e: int| #[trigger] comes(t, o, e, Seq::empty(), goal) <==> spells(
            t,
            pattern,
            o,
            e,
        ) by {
            let d = spans::all_cased(decode_utf8(t.subrange(o, e)), Operator::Lower);
            assert(Seq::<char>::empty() + d =~= d);
        }
        if exists|e: int| #[trigger] comes(t, o, e, Seq::empty(), goal) {
            let e = choose|e: int| #[trigger] comes(t, o, e, Seq::empty(), goal);
            assert(spells(t, pattern, o, e));
        }
        if exists|e: int| #[trigger] spells(t, pattern, o, e) {
            let e = choose|e: int| #[trigger] spells(t, pattern, o, e);
            assert(comes(t, o, e, Seq::empty(), goal));
        }
    }
}

// ---------------------------------------------------------------------------
// counting
// ---------------------------------------------------------------------------

/// Whether `ms` holds the places of `f` in order, and nothing else.
spec fn lists(ms: Seq<usize>, f: spec_fn(int) -> bool) -> bool {
    &&& forall|i: int, j: int| 0 <= i < j < ms.len() ==> ms[i] < ms[j]
    &&& forall|i: int| 0 <= i < ms.len() ==> f(#[trigger] ms[i] as int)
    &&& forall|o: int| #[trigger] f(o) ==> exists|i: int| 0 <= i < ms.len() && ms[i] == o
}

/// Whether `x` is among the first `n` of `s`.
spec fn among(s: Seq<usize>, n: int, x: usize) -> bool {
    exists|k: int| 0 <= k < n && k < s.len() && s[k] == x
}

proof fn lemma_among(s: Seq<usize>, n: int, x: usize)
    requires
        0 < n <= s.len(),
    ensures
        among(s, n, x) <==> among(s, n - 1, x) || s[n - 1] == x,
{
    if among(s, n, x) {
        let k = choose|k: int| 0 <= k < n && k < s.len() && s[k] == x;
        assert(k < n - 1 || s[n - 1] == x);
    }
}

proof fn lemma_pushed(s: Seq<usize>, y: usize, x: usize)
    ensures
        among(s.push(y), s.len() as int + 1, x) <==> among(s, s.len() as int, x) || x == y,
{
    let p = s.push(y);
    if among(s, s.len() as int, x) {
        let k = choose|k: int| 0 <= k < s.len() && k < s.len() && s[k] == x;
        assert(p[k] == x);
    }
    if x == y {
        assert(p[s.len() as int] == x);
    }
    if among(p, s.len() as int + 1, x) {
        let k = choose|k: int| 0 <= k < s.len() + 1 && k < p.len() && p[k] == x;
        if k < s.len() {
            assert(s[k] == x);
        }
    }
}

proof fn lemma_matching(t: Seq<u8>, starts: Seq<usize>, pattern: Seq<char>, n: int)
    requires
        0 <= n <= starts.len(),
        unicode::cuts(starts, t),
    ensures
        ({
            let ms = search::matching(t, starts, pattern, n);
            &&& forall|i: int, j: int| 0 <= i < j < ms.len() ==> ms[i] < ms[j]
            &&& forall|x: usize| #[trigger]
                among(ms, ms.len() as int, x) <==> among(starts, n, x) && search::matches_at(
                    t,
                    x as int,
                    pattern,
                )
        }),
    decreases n,
{
    if n > 0 {
        lemma_matching(t, starts, pattern, n - 1);
        let less = search::matching(t, starts, pattern, n - 1);
        let ms = search::matching(t, starts, pattern, n);
        let y = starts[n - 1];
        assert forall|x: usize| #[trigger]
            among(ms, ms.len() as int, x) <==> among(starts, n, x) && search::matches_at(
            t,
            x as int,
            pattern,
        ) by {
            lemma_among(starts, n, x);
            assert(among(less, less.len() as int, x) <==> among(starts, n - 1, x)
                && search::matches_at(t, x as int, pattern));
            lemma_pushed(less, y, x);
        }
        if search::matches_at(t, y as int, pattern) {
            assert forall|i: int, j: int| 0 <= i < j < ms.len() implies ms[i] < ms[j] by {
                if j == less.len() {
                    assert(less[i] == ms[i]);
                    assert(among(less, less.len() as int, less[i]));
                    let k = choose|k: int| 0 <= k < n - 1 && k < starts.len() && starts[k]
                        == less[i];
                    assert(starts[k] < starts[n - 1]);
                } else {
                    assert(less[i] == ms[i] && less[j] == ms[j]);
                }
            }
        }
    }
}

proof fn lemma_lists(t: Seq<u8>, pattern: Seq<char>)
    requires
        valid_utf8(t),
        pattern.len() > 0,
        unicode::cuts(unicode::grapheme_starts(decode_utf8(t)), t),
    ensures
        lists(search::match_offsets(t, pattern), hit(t, pattern)),
        forall|o: int| #[trigger] hit(t, pattern)(o) ==> 0 <= o < t.len(),
{
    let starts = unicode::grapheme_starts(decode_utf8(t));
    let ms = search::match_offsets(t, pattern);
    let f = hit(t, pattern);
    lemma_matching(t, starts, pattern, starts.len() as int);
    assert forall|i: int| 0 <= i < ms.len() implies f(#[trigger] ms[i] as int) by {
        assert(among(ms, ms.len() as int, ms[i]));
        let k = choose|k: int| 0 <= k < starts.len() && k < starts.len() && starts[k] == ms[i];
        lemma_matches(t, starts[k] as int, pattern);
    }
    assert forall|o: int| #[trigger] f(o) implies exists|i: int|
        0 <= i < ms.len() && ms[i] == o by {
        let k = choose|k: int| 0 <= k < starts.len() && #[trigger] starts[k] == o;
        lemma_matches(t, starts[k] as int, pattern);
        assert(search::matches_at(t, starts[k] as int, pattern));
        assert(among(starts, starts.len() as int, starts[k]));
        assert(among(ms, ms.len() as int, starts[k]));
        let i = choose|i: int| 0 <= i < ms.len() && i < ms.len() && ms[i] == starts[k];
        assert(ms[i] == o);
    }
}

/// As many places lie before `x` as listed ones do.
proof fn lemma_rank(ms: Seq<usize>, f: spec_fn(int) -> bool, x: int, j: int)
    requires
        lists(ms, f),
        0 <= j <= ms.len(),
        forall|i: int| 0 <= i < j ==> #[trigger] ms[i] < x,
        forall|i: int| j <= i < ms.len() ==> #[trigger] ms[i] >= x,
        x >= 0,
    ensures
        doing::tally(f, 0, x) == j,
    decreases x,
{
    if x == 0 {
        if j > 0 {
            assert(ms[0] < 0);
        }
    } else if f(x - 1) {
        let k = choose|k: int| 0 <= k < ms.len() && ms[k] == x - 1;
        assert(k < j);
        if k + 1 < j {
            assert(ms[k] < ms[k + 1]);
        }
        lemma_rank(ms, f, x - 1, j - 1);
    } else {
        assert forall|i: int| 0 <= i < j implies #[trigger] ms[i] < x - 1 by {
            assert(f(ms[i] as int));
        }
        lemma_rank(ms, f, x - 1, j);
    }
}

proof fn lemma_first_past(ms: Seq<usize>, x: int, i: int) -> (j: int)
    requires
        0 <= i <= ms.len(),
        forall|k: int| 0 <= k < i ==> #[trigger] ms[k] <= x,
    ensures
        i <= j <= ms.len(),
        forall|k: int| 0 <= k < j ==> #[trigger] ms[k] <= x,
        search::first_past(ms, x, i) == if j < ms.len() {
            Some(ms[j])
        } else {
            None
        },
        j < ms.len() ==> ms[j] > x,
    decreases ms.len() - i,
{
    if i >= ms.len() || ms[i] > x {
        i
    } else {
        lemma_first_past(ms, x, i + 1)
    }
}

proof fn lemma_last_ahead(ms: Seq<usize>, x: int, n: int) -> (j: int)
    requires
        0 <= n <= ms.len(),
        forall|k: int| n <= k < ms.len() ==> #[trigger] ms[k] >= x,
    ensures
        0 <= j <= n,
        forall|k: int| j <= k < ms.len() ==> #[trigger] ms[k] >= x,
        search::last_ahead(ms, x, n) == if j > 0 {
            Some(ms[j - 1])
        } else {
            None
        },
        j > 0 ==> ms[j - 1] < x,
    decreases n,
{
    if n == 0 || ms[n - 1] < x {
        n
    } else {
        lemma_last_ahead(ms, x, n - 1)
    }
}

/// One match on.
proof fn lemma_hop(t: Seq<u8>, pattern: Seq<char>, x: int, backward: bool) -> (laps: int)
    requires
        valid_utf8(t),
        pattern.len() > 0,
        0 <= x,
        unicode::cuts(unicode::grapheme_starts(decode_utf8(t)), t),
        search::match_offsets(t, pattern).len() > 0,
    ensures
        nth_hit(
            t,
            pattern,
            x,
            backward,
            1,
            laps,
            search::hop(search::match_offsets(t, pattern), x, backward),
        ),
        0 <= laps <= 1,
{
    let ms = search::match_offsets(t, pattern);
    let f = hit(t, pattern);
    let m = ms.len() as int;
    lemma_lists(t, pattern);
    assert forall|i: int| 0 <= i < m implies #[trigger] ms[i] < t.len() by {
        assert(f(ms[i] as int));
    }
    lemma_rank(ms, f, t.len() as int, m);
    assert(hits(t, pattern) == m);
    assert(1 * m == m && 0 * m == 0);
    if backward {
        let j = lemma_last_ahead(ms, x, m);
        assert forall|i: int| 0 <= i < j implies #[trigger] ms[i] < x by {
            if i < j - 1 {
                assert(ms[i] < ms[j - 1]);
            }
        }
        lemma_rank(ms, f, x, j);
        let k = if j > 0 {
            j - 1
        } else {
            m - 1
        };
        lemma_rank(ms, f, ms[k] as int, k);
        if j > 0 {
            0
        } else {
            1
        }
    } else {
        let j = lemma_first_past(ms, x, 0);
        assert forall|i: int| j <= i < m implies #[trigger] ms[i] >= x + 1 by {
            if j < i {
                assert(ms[j] < ms[i]);
            }
        }
        lemma_rank(ms, f, x + 1, j);
        let k = if j < m {
            j
        } else {
            0
        };
        assert forall|i: int| 0 <= i < k + 1 implies #[trigger] ms[i] < ms[k] + 1 by {
            if i < k {
                assert(ms[i] < ms[k]);
            }
        }
        assert forall|i: int| k + 1 <= i < m implies #[trigger] ms[i] >= ms[k] + 1 by {
            assert(ms[k] < ms[i]);
        }
        lemma_rank(ms, f, ms[k] + 1, k + 1);
        if j < m {
            0
        } else {
            1
        }
    }
}

/// `n` matches on.
proof fn lemma_hops(t: Seq<u8>, pattern: Seq<char>, x: int, backward: bool, n: int) -> (laps: int)
    requires
        valid_utf8(t),
        pattern.len() > 0,
        0 <= x,
        n >= 1,
        unicode::cuts(unicode::grapheme_starts(decode_utf8(t)), t),
        search::match_offsets(t, pattern).len() > 0,
    ensures
        nth_hit(
            t,
            pattern,
            x,
            backward,
            n,
            laps,
            search::hops(search::match_offsets(t, pattern), x, backward, n),
        ),
        laps >= 0,
    decreases n,
{
    let ms = search::match_offsets(t, pattern);
    let a = lemma_hop(t, pattern, x, backward);
    let y = search::hop(ms, x, backward);
    if n == 1 {
        assert(search::hops(ms, y, backward, 0) == y);
        a
    } else {
        let b = lemma_hops(t, pattern, y, backward, n - 1);
        let m = hits(t, pattern);
        assert((a + b) * m == a * m + b * m) by (nonlinear_arith);
        a + b
    }
}

/// What a search comes to.
pub(crate) proof fn lemma_found(t: Seq<u8>, x: int, pattern: Seq<char>, backward: bool, n: int) -> (r: (
    int,
    int,
))
    requires
        valid_utf8(t),
        0 <= x,
        n >= 1,
        unicode::cuts(unicode::grapheme_starts(decode_utf8(t)), t),
    ensures
        if pattern.len() == 0 || hits(t, pattern) == 0 {
            search::found(t, x, pattern, backward, n) is None
        } else {
            search::found(t, x, pattern, backward, n) == Some(r.0) && nth_hit(
                t,
                pattern,
                x,
                backward,
                n,
                r.1,
                r.0,
            ) && r.1 >= 0
        },
{
    let ms = search::match_offsets(t, pattern);
    if pattern.len() == 0 {
        (0, 0)
    } else {
        let f = hit(t, pattern);
        lemma_lists(t, pattern);
        assert forall|i: int| 0 <= i < ms.len() implies #[trigger] ms[i] < t.len() by {
            assert(f(ms[i] as int));
        }
        lemma_rank(ms, f, t.len() as int, ms.len() as int);
        if ms.len() == 0 {
            (0, 0)
        } else {
            let laps = lemma_hops(t, pattern, x, backward, n);
            (search::hops(ms, x, backward, n), laps)
        }
    }
}

/// `/` and `?` go to as many matches on as their count says, ahead or back, around the
/// ends of the text. They ring where nothing matches. Either way the pattern and the
/// direction are remembered.
pub proof fn a_search_counts_its_matches(
    s: EditorState,
    key: Key,
    pattern: Seq<char>,
    backward: bool,
    count: Option<usize>,
) -> (r: (int, int))
    requires
        s.wf(),
        doing::completes(s, key, Command::Move(Motion::Search { pattern, backward }), count),
    ensures
        doing::after(s, key).last_search == Some((pattern, backward)),
        doing::times(count) >= 1 && unicode::cuts(
            unicode::grapheme_starts(decode_utf8(s.text)),
            s.text,
        ) ==> if pattern.len() == 0 || hits(s.text, pattern) == 0 {
            finding::landed(s, key, None)
        } else {
            &&& finding::landed(s, key, Some(r.0))
            &&& nth_hit(s.text, pattern, s.cursor, backward, doing::times(count), r.1, r.0)
            &&& r.1 >= 0
        },
{
    let motion = Motion::Search { pattern, backward };
    doing::lemma_done(s, key, Command::Move(motion), count);
    reveal(Turn::acted);
    reveal(Turn::moved);
    reveal(motion::aimed);
    assert(Seq::<Effect>::empty().push(Effect::Bell) =~= seq![Effect::Bell]);
    if doing::times(count) >= 1 && unicode::cuts(
        unicode::grapheme_starts(decode_utf8(s.text)),
        s.text,
    ) {
        lemma_found(s.text, s.cursor, pattern, backward, doing::times(count))
    } else {
        (0, 0)
    }
}

/// `n` repeats the last search in its direction and `N` in the other one. They leave what
/// is remembered of it as it was.
pub proof fn a_repeated_search_keeps_or_turns_its_direction(
    s: EditorState,
    key: Key,
    reverse: bool,
    count: Option<usize>,
) -> (r: (int, int))
    requires
        s.wf(),
        doing::completes(s, key, Command::Move(Motion::RepeatSearch { reverse }), count),
    ensures
        doing::after(s, key).last_search == s.last_search,
        s.last_search is None ==> finding::landed(s, key, None),
        doing::times(count) >= 1 && s.last_search is Some && unicode::cuts(
            unicode::grapheme_starts(decode_utf8(s.text)),
            s.text,
        ) ==> ({
            let (pattern, ago) = s.last_search->0;
            let backward = if reverse {
                !ago
            } else {
                ago
            };
            if pattern.len() == 0 || hits(s.text, pattern) == 0 {
                finding::landed(s, key, None)
            } else {
                &&& finding::landed(s, key, Some(r.0))
                &&& nth_hit(s.text, pattern, s.cursor, backward, doing::times(count), r.1, r.0)
                &&& r.1 >= 0
            }
        }),
{
    let motion = Motion::RepeatSearch { reverse };
    doing::lemma_done(s, key, Command::Move(motion), count);
    reveal(Turn::acted);
    reveal(Turn::moved);
    reveal(motion::aimed);
    assert(Seq::<Effect>::empty().push(Effect::Bell) =~= seq![Effect::Bell]);
    match s.last_search {
        Some((pattern, ago)) => if doing::times(count) >= 1 && unicode::cuts(
            unicode::grapheme_starts(decode_utf8(s.text)),
            s.text,
        ) {
            lemma_found(s.text, s.cursor, pattern, ago != reverse, doing::times(count))
        } else {
            (0, 0)
        },
        None => (0, 0),
    }
}

} // verus!
