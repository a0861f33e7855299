//! What the text objects cover: words, quotes and paragraphs.

use vstd::prelude::*;
use vstd::utf8::*;

use crate::aiming;
use crate::command::{Command, Mode, ObjectScope, Operator, Target, TextObject};
use crate::doing;
use crate::effect::Effect;
use crate::finding;
use crate::key::Key;
use crate::motion::Extent;
use crate::object;
use crate::pairing;
use crate::puts;
use crate::scan;
use crate::scan::{Class, Run};
use crate::spans;
use crate::state::{EditorState, Turn};
use crate::text;
use crate::unicode;
use crate::words;
use crate::words::sort;

verus! {

// ---------------------------------------------------------------------------
// words
// ---------------------------------------------------------------------------

/// Whether a run of characters of one sort begins at `p`, past the start of the text.
pub open spec fn turns(t: Seq<u8>, big: bool) -> spec_fn(int) -> bool {
    |p: int|
        {
            &&& 0 < p < t.len()
            &&& text::bound(t, p)
            &&& sort(text::char_before(t, p)->0, big) != sort(text::char_at(t, p)->0, big)
        }
}

/// Whether `a..b` is the run of characters of one sort around `at`.
pub open spec fn run_at(t: Seq<u8>, at: int, big: bool, a: int, b: int) -> bool {
    let c = sort(text::char_at(t, at)->0, big);
    &&& 0 <= a <= at < b <= t.len()
    &&& text::bound(t, a)
    &&& text::bound(t, b)
    &&& forall|j: int|
        a <= j < b && #[trigger] text::bound(t, j) ==> sort(text::char_at(t, j)->0, big) == c
    &&& a > 0 ==> sort(text::char_before(t, a)->0, big) != c
    &&& b < t.len() ==> sort(text::char_at(t, b)->0, big) != c
}

/// Whether `a..b` are blanks that do not leave the row, as far as they go ahead.
pub open spec fn blanks_on(t: Seq<u8>, a: int, b: int) -> bool {
    &&& 0 <= a <= b <= t.len()
    &&& text::bound(t, b)
    &&& forall|j: int|
        a <= j < b && #[trigger] text::bound(t, j) ==> unicode::is_space(text::char_at(t, j)->0)
            && text::char_at(t, j)->0 != '\n'
    &&& b < t.len() ==> !unicode::is_space(text::char_at(t, b)->0) || text::char_at(t, b)->0
        == '\n'
}

/// Whether `a..b` are blanks that do not leave the row, as far as they go back.
pub open spec fn blanks_back(t: Seq<u8>, a: int, b: int) -> bool {
    &&& 0 <= a <= b <= t.len()
    &&& text::bound(t, a)
    &&& forall|j: int|
        a <= j < b && #[trigger] text::bound(t, j) ==> unicode::is_space(text::char_at(t, j)->0)
            && text::char_at(t, j)->0 != '\n'
    &&& a > 0 ==> !unicode::is_space(text::char_before(t, a)->0) || text::char_before(t, a)->0
        == '\n'
}

/// Whether `e` lies `n` places of `f` past `from`, or at the end of the row where there
/// are fewer.
pub open spec fn counted(t: Seq<u8>, f: spec_fn(int) -> bool, from: int, n: int, e: int) -> bool {
    &&& from <= e <= t.len()
    &&& text::bound(t, e)
    &&& forall|j: int| from <= j < e && #[trigger] f(j) ==> text::char_at(t, j)->0 != '\n'
    &&& {
        ||| (e == t.len() || text::char_at(t, e)->0 == '\n') && doing::tally(f, from, e) <= n
        ||| f(e) && doing::tally(f, from, e) == n
    }
}

proof fn lemma_none_within(t: Seq<u8>, big: bool, i: int, e: int)
    requires
        valid_utf8(t),
        text::bound(t, i),
        i < e <= t.len(),
        forall|j: int|
            i <= j < e && #[trigger] text::bound(t, j) ==> sort(text::char_at(t, j)->0, big)
                == sort(text::char_at(t, i)->0, big),
    ensures
        doing::tally(turns(t, big), i + 1, e) == 0,
        doing::tally(words::begins(t, big), i + 1, e) == 0,
{
    assert forall|j: int| i + 1 <= j < e implies !#[trigger] turns(t, big)(j)
        && !words::begins(t, big)(j) by {
        if text::bound(t, j) {
            text::lemma_prev(t, j);
            if text::prev(t, j) < i {
                assert(!text::bound(t, i));
            }
            assert(text::bound(t, text::prev(t, j)));
        }
    }
    doing::lemma_tally_none(turns(t, big), i + 1, e);
    assert forall|j: int| i + 1 <= j < e implies !#[trigger] words::begins(t, big)(j) by {
        assert(!turns(t, big)(j));
    }
    doing::lemma_tally_none(words::begins(t, big), i + 1, e);
}

proof fn lemma_word_run(t: Seq<u8>, at: int, big: bool)
    requires
        valid_utf8(t),
        text::bound(t, at),
        at < t.len(),
    ensures
        run_at(t, at, big, scan::word_run(t, at, big).0, scan::word_run(t, at, big).1),
{
    let class = scan::class_of(text::char_at(t, at)->0, big);
    let run = Run::Same { class, big };
    words::lemma_run_end(t, at, run);
    words::lemma_run_start(t, at, run);
    let (a, b) = scan::word_run(t, at, big);
    if b == at {
        assert(false);
    }
    assert forall|c: char| run.takes(c) <==> sort(c, big) == #[trigger] sort(
        text::char_at(t, at)->0,
        big,
    ) by {
        words::lemma_sort(c, text::char_at(t, at)->0, big);
    }
    assert forall|j: int| a <= j < b && #[trigger] text::bound(t, j) implies sort(
        text::char_at(t, j)->0,
        big,
    ) == sort(text::char_at(t, at)->0, big) by {
        words::lemma_sort(text::char_at(t, j)->0, text::char_at(t, at)->0, big);
    }
    if a > 0 {
        words::lemma_sort(text::char_before(t, a)->0, text::char_at(t, at)->0, big);
    }
    if b < t.len() {
        words::lemma_sort(text::char_at(t, b)->0, text::char_at(t, at)->0, big);
    }
}

proof fn lemma_past_runs(t: Seq<u8>, i: int, big: bool, n: int)
    requires
        valid_utf8(t),
        text::bound(t, i),
        n >= 0,
        i == t.len() || text::char_at(t, i)->0 == '\n' || turns(t, big)(i),
    ensures
        counted(t, turns(t, big), i, n, object::past_runs(t, i, big, n)),
    decreases n,
{
    let f = turns(t, big);
    if n > 0 && !object::spent(t, i) {
        let c = text::char_at(t, i)->0;
        let e = object::next_run_end(t, i, big);
        lemma_word_run(t, i, big);
        words::lemma_run_end(t, i, Run::Inline);
        words::lemma_sort(c, c, big);
        if scan::class_of(c, big) == Class::Blank {
            assert(e > i);
            assert forall|j: int| i <= j < e && #[trigger] text::bound(t, j) implies sort(
                text::char_at(t, j)->0,
                big,
            ) == sort(c, big) by {}
        }
        lemma_none_within(t, big, i, e);
        if e < t.len() && text::char_at(t, e)->0 != '\n' {
            text::lemma_prev(t, e);
            if text::prev(t, e) < i {
                assert(!text::bound(t, i));
            }
            assert(text::bound(t, text::prev(t, e)));
            assert(f(e));
        }
        lemma_past_runs(t, e, big, n - 1);
        let last = object::past_runs(t, e, big, n - 1);
        doing::lemma_tally_at(f, i, i, last);
        doing::lemma_tally_split(f, i + 1, e, last);
        assert(doing::tally(f, i, i) == 0);
        assert forall|j: int| i <= j < last && #[trigger] f(j) implies text::char_at(t, j)->0
            != '\n' by {
            if i < j < e {
                doing::lemma_tally_at(f, i + 1, j, e);
                doing::lemma_tally_split(f, i + 1, j, j);
                doing::lemma_tally_split(f, j + 1, e, e);
            }
        }
    } else {
        assert(doing::tally(f, i, i) == 0);
    }
}

proof fn lemma_past_words(t: Seq<u8>, i: int, big: bool, n: int)
    requires
        valid_utf8(t),
        text::bound(t, i),
        n >= 0,
        i == t.len() || text::char_at(t, i)->0 == '\n' || words::begins(t, big)(i),
    ensures
        counted(t, words::begins(t, big), i, n, object::past_words(t, i, big, n)),
    decreases n,
{
    let f = words::begins(t, big);
    if n > 0 && !object::spent(t, i) {
        let c = text::char_at(t, i)->0;
        let b = scan::word_run(t, i, big).1;
        lemma_word_run(t, i, big);
        words::lemma_run_end(t, b, Run::Inline);
        let e = scan::run_end(t, b, Run::Inline);
        lemma_none_within(t, big, i, b);
        assert forall|j: int| b <= j < e implies !#[trigger] f(j) by {
            if text::bound(t, j) {
                assert(unicode::is_space(text::char_at(t, j)->0));
            }
        }
        doing::lemma_tally_none(f, b, e);
        if e < t.len() && text::char_at(t, e)->0 != '\n' {
            text::lemma_prev(t, e);
            assert(text::bound(t, text::prev(t, e)));
            if e > b {
                if text::prev(t, e) < b {
                    assert(!text::bound(t, b));
                }
            } else if text::prev(t, e) < i {
                assert(!text::bound(t, i));
            }
            assert(f(e));
        }
        lemma_past_words(t, e, big, n - 1);
        let last = object::past_words(t, e, big, n - 1);
        doing::lemma_tally_at(f, i, i, last);
        doing::lemma_tally_split(f, i + 1, b, last);
        doing::lemma_tally_split(f, b, e, last);
        assert(doing::tally(f, i, i) == 0);
        assert forall|j: int| i <= j < last && #[trigger] f(j) implies text::char_at(t, j)->0
            != '\n' by {
            if i < j < b {
                doing::lemma_tally_at(f, i + 1, j, b);
                doing::lemma_tally_split(f, i + 1, j, j);
                doing::lemma_tally_split(f, j + 1, b, b);
            }
        }
    } else {
        assert(doing::tally(f, i, i) == 0);
    }
}

/// `iw` covers the run of characters of one sort around the cursor, and one run more for
/// each further count. `aw` covers the run with the blanks behind it, or with those before
/// it where none are behind it, and for each further count one word more with the blanks
/// behind it. Neither leaves the row for more.
pub proof fn a_word_object_covers_runs(
    t: Seq<u8>,
    at: int,
    scope: ObjectScope,
    big: bool,
    count: int,
) -> (r: (int, int, int, int, int))
    requires
        valid_utf8(t),
        text::bound(t, at),
        count >= 1,
    ensures
        ({
            let e = object::object_extent(t, at, scope, TextObject::Word { big }, count);
            let (a, b, c, start, end) = r;
            if at == t.len() {
                e is None
            } else {
                &&& e == Some(Extent::Chars { start, end })
                &&& run_at(t, at, big, a, b)
                &&& match scope {
                    ObjectScope::Inner => start == a && counted(
                        t,
                        turns(t, big),
                        b,
                        count - 1,
                        end,
                    ),
                    ObjectScope::Around => {
                        &&& blanks_on(t, b, c)
                        &&& if c > b {
                            start == a
                        } else {
                            blanks_back(t, start, a)
                        }
                        &&& counted(t, words::begins(t, big), c, count - 1, end)
                    },
                }
            }
        }),
{
    reveal(object::object_extent);
    if at == t.len() {
        (0, 0, 0, 0, 0)
    } else {
        let (a, b) = scan::word_run(t, at, big);
        lemma_word_run(t, at, big);
        if b < t.len() {
            text::lemma_prev(t, b);
            if text::prev(t, b) < a {
                assert(!text::bound(t, a));
            }
            assert(text::bound(t, text::prev(t, b)));
            assert(turns(t, big)(b));
        }
        match scope {
            ObjectScope::Inner => {
                lemma_past_runs(t, b, big, count - 1);
                assert(object::word_object(t, at, scope, big, count) == Some(
                    Extent::Chars { start: a, end: object::past_runs(t, b, big, count - 1) },
                ));
                (a, b, b, a, object::past_runs(t, b, big, count - 1))
            },
            ObjectScope::Around => {
                let c = scan::run_end(t, b, Run::Inline);
                words::lemma_run_end(t, b, Run::Inline);
                words::lemma_run_start(t, a, Run::Inline);
                assert(blanks_on(t, b, c));
                if c < t.len() && text::char_at(t, c)->0 != '\n' {
                    text::lemma_prev(t, c);
                    assert(text::bound(t, text::prev(t, c)));
                    if c > b {
                        if text::prev(t, c) < b {
                            assert(!text::bound(t, b));
                        }
                    }
                    assert(words::begins(t, big)(c));
                }
                lemma_past_words(t, c, big, count - 1);
                let start = if c > b {
                    a
                } else {
                    scan::run_start(t, a, Run::Inline)
                };
                let end = object::past_words(t, c, big, count - 1);
                assert(object::word_object(t, at, scope, big, count) == Some(
                    Extent::Chars { start, end },
                ));
                assert(counted(t, words::begins(t, big), c, count - 1, end));
                assert(c == b ==> blanks_back(t, start, a));
                (a, b, c, start, end)
            },
        }
    }
}

// ---------------------------------------------------------------------------
// quotes
// ---------------------------------------------------------------------------

/// Whether `a` and `b` are quotes that make a pair: `a` is preceded by an even number of
/// quotes on its row, and none stands between it and `b`.
pub open spec fn quoted(t: Seq<u8>, start: int, limit: int, quote: char, a: int, b: int) -> bool {
    let f = finding::stands(t, quote);
    &&& start <= a < b < limit
    &&& f(a)
    &&& f(b)
    &&& doing::tally(f, start, a) % 2 == 0
    &&& doing::tally(f, a + 1, b) == 0
}

proof fn lemma_next_quote(t: Seq<u8>, i: int, limit: int, quote: char)
    requires
        valid_utf8(t),
        text::bound(t, i),
        limit <= t.len(),
    ensures
        ({
            let f = finding::stands(t, quote);
            match scan::next_quote(t, i, limit, quote) {
                Some(p) => i <= p < limit && f(p) && text::bound(t, p) && doing::tally(f, i, p)
                    == 0,
                None => doing::tally(f, i, limit) == 0,
            }
        }),
    decreases scan::gap(i, limit),
{
    let f = finding::stands(t, quote);
    if i < limit {
        if text::char_at(t, i)->0 == quote {
            assert(doing::tally(f, i, i) == 0);
        } else {
            text::lemma_next(t, i);
            let n = text::next(t, i);
            lemma_next_quote(t, n, limit, quote);
            assert forall|j: int| i <= j < n implies !#[trigger] f(j) by {}
            doing::lemma_tally_none(f, i, n);
            match scan::next_quote(t, n, limit, quote) {
                Some(p) => {
                    doing::lemma_tally_split(f, i, n, p);
                },
                None => {
                    if n <= limit {
                        doing::lemma_tally_split(f, i, n, limit);
                    } else {
                        doing::lemma_tally_none(f, i, limit);
                    }
                },
            }
        }
    }
}

pub(crate) proof fn lemma_quote_pair(t: Seq<u8>, start: int, i: int, limit: int, at: int, quote: char)
    requires
        valid_utf8(t),
        text::bound(t, i),
        start <= i,
        limit <= t.len(),
        doing::tally(finding::stands(t, quote), start, i) % 2 == 0,
        forall|a: int, b: int| #[trigger]
            quoted(t, start, limit, quote, a, b) && a < i ==> b < at,
    ensures
        match scan::quote_pair(t, i, limit, at, quote) {
            Some((a, b)) => {
                &&& quoted(t, start, limit, quote, a, b)
                &&& at <= b
                &&& forall|x: int, y: int| #[trigger]
                    quoted(t, start, limit, quote, x, y) && at <= y ==> a <= x
            },
            None => forall|x: int, y: int| #[trigger]
                quoted(t, start, limit, quote, x, y) ==> y < at,
        },
    decreases scan::gap(i, limit),
{
    let f = finding::stands(t, quote);
    lemma_next_quote(t, i, limit, quote);
    match scan::next_quote(t, i, limit, quote) {
        None => {
            assert forall|x: int, y: int| #[trigger]
                quoted(t, start, limit, quote, x, y) implies y < at by {
                if i <= x {
                    doing::lemma_tally_at(f, i, x, limit);
                    doing::lemma_tally_split(f, i, x, x);
                    doing::lemma_tally_split(f, x + 1, limit, limit);
                }
            }
        },
        Some(a) => {
            text::lemma_next(t, a);
            let n = text::next(t, a);
            lemma_next_quote(t, n, limit, quote);
            doing::lemma_tally_split(f, start, i, a);
            assert forall|j: int| a + 1 <= j < n implies !#[trigger] f(j) by {}
            doing::lemma_tally_none(f, a + 1, n);
            // no pair begins between `i` and `a`
            assert forall|x: int, y: int| #[trigger]
                quoted(t, start, limit, quote, x, y) && x < a implies y < at by {
                if i <= x {
                    doing::lemma_tally_at(f, i, x, a);
                    doing::lemma_tally_split(f, i, x, x);
                    doing::lemma_tally_split(f, x + 1, a, a);
                }
            }
            match scan::next_quote(t, n, limit, quote) {
                None => {
                    assert forall|x: int, y: int| #[trigger]
                        quoted(t, start, limit, quote, x, y) implies y < at by {
                        if a <= x {
                            if n <= y {
                                doing::lemma_tally_at(f, n, y, limit);
                                doing::lemma_tally_split(f, n, y, y);
                                doing::lemma_tally_split(f, y + 1, limit, limit);
                            } else {
                                assert(!f(y));
                            }
                        }
                    }
                },
                Some(b) => {
                    doing::lemma_tally_split(f, a + 1, n, b);
                    assert(quoted(t, start, limit, quote, a, b));
                    if at <= b {
                        assert forall|x: int, y: int| #[trigger]
                            quoted(t, start, limit, quote, x, y) && at <= y implies a <= x by {}
                    } else {
                        text::lemma_next(t, b);
                        let m = text::next(t, b);
                        assert forall|j: int| b + 1 <= j < m implies !#[trigger] f(j) by {}
                        doing::lemma_tally_none(f, b + 1, m);
                        doing::lemma_tally_at(f, start, a, m);
                        doing::lemma_tally_at(f, a + 1, b, m);
                        assert(doing::tally(f, start, m) == doing::tally(f, start, a) + 2);
                        assert forall|x: int, y: int| #[trigger]
                            quoted(t, start, limit, quote, x, y) && x < m implies y < at by {
                            if a < x {
                                if x < b {
                                    doing::lemma_tally_at(f, a + 1, x, b);
                                    doing::lemma_tally_split(f, a + 1, x, x);
                                    doing::lemma_tally_split(f, x + 1, b, b);
                                } else if x == b {
                                    doing::lemma_tally_at(f, start, a, b);
                                } else {
                                    assert(!f(x));
                                }
                            } else if x == a {
                                if b < y {
                                    doing::lemma_tally_at(f, a + 1, b, y);
                                    doing::lemma_tally_split(f, a + 1, b, b);
                                    doing::lemma_tally_split(f, b + 1, y, y);
                                }
                            }
                        }
                        lemma_quote_pair(t, start, m, limit, at, quote);
                    }
                },
            }
        },
    }
}

/// A quote object is the first pair of quotes on the row that does not end before the
/// cursor, the quotes being paired from the start of the row: with its quotes for `a`, and
/// what is between them for `i`.
pub proof fn a_quote_object_is_the_first_pair_not_passed(
    t: Seq<u8>,
    at: int,
    scope: ObjectScope,
    quote: char,
    count: int,
) -> (r: (int, int))
    requires
        valid_utf8(t),
        0 <= at <= t.len(),
    ensures
        ({
            let row = text::row_of(t, at);
            let start = text::row_start(t, row);
            let limit = text::content_end(t, row);
            let e = object::object_extent(t, at, scope, TextObject::Quoted(quote), count);
            let (a, b) = r;
            if e is Some {
                &&& quoted(t, start, limit, quote, a, b)
                &&& at <= b
                &&& forall|x: int, y: int| #[trigger]
                    quoted(t, start, limit, quote, x, y) && at <= y ==> a <= x
                &&& match scope {
                    ObjectScope::Around => e == Some(
                        Extent::Chars { start: a, end: text::next(t, b) },
                    ),
                    ObjectScope::Inner => !unicode::is_space(quote) ==> e == Some(
                        Extent::Chars { start: text::next(t, a), end: b },
                    ),
                }
            } else {
                forall|x: int, y: int| #[trigger]
                    quoted(t, start, limit, quote, x, y) ==> y < at
            }
        }),
{
    reveal(object::object_extent);
    let row = text::row_of(t, at);
    let start = text::row_start(t, row);
    let limit = text::content_end(t, row);
    text::lemma_row_of(t, at);
    text::lemma_rows(t, row);
    text::lemma_row_bounds(t, row);
    assert(doing::tally(finding::stands(t, quote), start, start) == 0);
    lemma_quote_pair(t, start, start, limit, at, quote);
    match scan::enclosing_quotes(t, at, quote) {
        Some((a, b)) => {
            assert(quoted(t, start, limit, quote, a, b));
            text::lemma_row_bytes(t, row, a);
            text::lemma_row_bytes(t, row, b);
            pairing::lemma_inside_row(t, a, b);
            (a, b)
        },
        None => (0, 0),
    }
}

// ---------------------------------------------------------------------------
// paragraphs
// ---------------------------------------------------------------------------

/// Whether row `row` holds nothing but blanks.
pub open spec fn bare(t: Seq<u8>, row: int) -> bool {
    forall|j: int|
        text::row_start(t, row) <= j < text::content_end(t, row) && #[trigger] text::bound(t, j)
            ==> unicode::is_space(text::char_at(t, j)->0)
}

/// Whether rows with text follow blank rows, or the other way about, at `row`.
pub open spec fn row_turns(t: Seq<u8>) -> spec_fn(int) -> bool {
    |row: int| 0 < row < text::rows(t) && bare(t, row) != bare(t, row - 1)
}

/// Whether a paragraph begins below a blank row at `row`.
pub open spec fn row_begins(t: Seq<u8>) -> spec_fn(int) -> bool {
    |row: int| 0 < row < text::rows(t) && !bare(t, row) && bare(t, row - 1)
}

/// Whether the rows `a + 1..=b` are all bare, or all not, as far as they go.
pub open spec fn rows_alike(t: Seq<u8>, a: int, b: int, blank: bool) -> bool {
    &&& a <= b < text::rows(t)
    &&& forall|r: int| a < r <= b ==> #[trigger] bare(t, r) == blank
    &&& b + 1 < text::rows(t) ==> bare(t, b + 1) != blank
}

/// Whether row `e` lies `n` places of `f` past `from`, or is the last row where there are
/// fewer.
pub open spec fn rows_counted(
    t: Seq<u8>,
    f: spec_fn(int) -> bool,
    from: int,
    n: int,
    e: int,
) -> bool {
    &&& from <= e + 1 <= text::rows(t)
    &&& {
        ||| e + 1 == text::rows(t) && doing::tally(f, from, e + 1) <= n
        ||| f(e + 1) && doing::tally(f, from, e + 1) == n
    }
}

proof fn lemma_bare(t: Seq<u8>, row: int)
    requires
        valid_utf8(t),
        0 <= row < text::rows(t),
    ensures
        scan::blank_row(t, row) == bare(t, row),
{
    text::lemma_rows(t, row);
    text::lemma_row_bounds(t, row);
    aiming::lemma_skip_space(t, text::row_start(t, row), text::content_end(t, row));
}

proof fn lemma_alike(t: Seq<u8>, row: int, blank: bool)
    requires
        valid_utf8(t),
        0 <= row < text::rows(t),
    ensures
        rows_alike(t, row, object::alike_below(t, row, blank), blank),
    decreases text::rows(t) - row,
{
    if row + 1 < text::rows(t) {
        lemma_bare(t, row + 1);
        if scan::blank_row(t, row + 1) == blank {
            lemma_alike(t, row + 1, blank);
        }
    }
}

proof fn lemma_text_above(t: Seq<u8>, row: int)
    requires
        valid_utf8(t),
        0 <= row < text::rows(t),
    ensures
        ({
            let first = object::text_above(t, row);
            &&& 0 <= first <= row
            &&& forall|r: int| first <= r < row ==> !#[trigger] bare(t, r)
            &&& first > 0 ==> bare(t, first - 1)
        }),
    decreases row,
{
    if row > 0 {
        lemma_bare(t, row - 1);
        if !scan::blank_row(t, row - 1) {
            lemma_text_above(t, row - 1);
        }
    }
}

/// Past runs of rows: the first begins right below `row`, whatever stands above it.
proof fn lemma_past_row_runs(t: Seq<u8>, row: int, n: int)
    requires
        valid_utf8(t),
        0 <= row < text::rows(t),
        n >= 1,
    ensures
        ({
            let e = object::past_row_runs(t, row, n);
            &&& row <= e < text::rows(t)
            &&& row + 1 < text::rows(t) ==> row < e && rows_counted(
                t,
                row_turns(t),
                row + 2,
                n - 1,
                e,
            )
        }),
    decreases n,
{
    let f = row_turns(t);
    if row + 1 < text::rows(t) {
        let blank = scan::blank_row(t, row + 1);
        lemma_bare(t, row + 1);
        lemma_alike(t, row + 1, blank);
        let e = object::alike_below(t, row + 1, blank);
        assert forall|r: int| row + 2 <= r < e + 1 implies !#[trigger] f(r) by {
            assert(bare(t, r) == blank);
            assert(bare(t, r - 1) == blank);
        }
        doing::lemma_tally_none(f, row + 2, e + 1);
        if e + 1 < text::rows(t) {
            assert(bare(t, e) == blank);
            assert(f(e + 1));
        }
        if n > 1 {
            lemma_past_row_runs(t, e, n - 1);
            let last = object::past_row_runs(t, e, n - 1);
            if e + 1 < text::rows(t) {
                doing::lemma_tally_split(f, row + 2, e + 1, last + 1);
                doing::lemma_tally_at(f, e + 1, e + 1, last + 1);
                assert(doing::tally(f, e + 1, e + 1) == 0);
            }
        } else {
            assert(object::past_row_runs(t, e, 0) == e);
        }
    }
}

proof fn lemma_past_paragraphs(t: Seq<u8>, row: int, n: int)
    requires
        valid_utf8(t),
        0 <= row < text::rows(t),
        n >= 0,
        row + 1 < text::rows(t) ==> row_begins(t)(row + 1),
    ensures
        ({
            let e = object::past_paragraphs(t, row, n);
            row <= e && rows_counted(t, row_begins(t), row + 1, n, e)
        }),
    decreases n,
{
    let f = row_begins(t);
    assert(doing::tally(f, row + 1, row + 1) == 0);
    if n > 0 && row + 1 < text::rows(t) {
        lemma_bare(t, row + 1);
        lemma_alike(t, row + 1, false);
        let b = object::alike_below(t, row + 1, false);
        lemma_alike(t, b, true);
        let e = object::alike_below(t, b, true);
        assert forall|r: int| row + 2 <= r < e + 1 implies !#[trigger] f(r) by {
            if r <= b {
                assert(!bare(t, r));
                assert(!bare(t, r - 1));
            } else {
                assert(bare(t, r));
            }
        }
        doing::lemma_tally_none(f, row + 2, e + 1);
        if e + 1 < text::rows(t) {
            assert(b < e);
            assert(bare(t, e));
            assert(f(e + 1));
        }
        lemma_past_paragraphs(t, e, n - 1);
        let last = object::past_paragraphs(t, e, n - 1);
        doing::lemma_tally_at(f, row + 1, row + 1, last + 1);
        doing::lemma_tally_split(f, row + 2, e + 1, last + 1);
    }
}

/// `ip` covers the rows with text around the cursor, and one run of rows more, blank or
/// not, for each further count. `ap` covers the rows with text and the blank rows below
/// them, and one paragraph more with the blank rows below it for each further count.
pub proof fn a_paragraph_object_covers_rows(
    t: Seq<u8>,
    at: int,
    scope: ObjectScope,
    count: int,
) -> (r: (int, int, int))
    requires
        valid_utf8(t),
        0 <= at <= t.len(),
        count >= 1,
    ensures
        ({
            let (first, body, last) = r;
            let row = text::row_of(t, at);
            &&& object::object_extent(t, at, scope, TextObject::Paragraph, count) == Some(
                Extent::Lines { first, last },
            )
            &&& 0 <= first <= row
            &&& forall|x: int| first <= x < row ==> !#[trigger] bare(t, x)
            &&& first > 0 ==> bare(t, first - 1)
            &&& rows_alike(t, row, body, false)
            &&& match scope {
                ObjectScope::Inner => if count == 1 || body + 1 == text::rows(t) {
                    last == body
                } else {
                    body < last && rows_counted(t, row_turns(t), body + 2, count - 2, last)
                },
                ObjectScope::Around => exists|gap: int| #[trigger]
                    rows_alike(t, body, gap, true) && gap <= last && rows_counted(
                        t,
                        row_begins(t),
                        gap + 1,
                        count - 1,
                        last,
                    ),
            }
        }),
{
    reveal(object::object_extent);
    let row = text::row_of(t, at);
    text::lemma_row_of(t, at);
    lemma_text_above(t, row);
    lemma_alike(t, row, false);
    let first = object::text_above(t, row);
    let body = object::alike_below(t, row, false);
    match scope {
        ObjectScope::Inner => {
            if count > 1 {
                lemma_past_row_runs(t, body, count - 1);
            }
            (first, body, object::past_row_runs(t, body, count - 1))
        },
        ObjectScope::Around => {
            let gap = object::alike_below(t, body, true);
            lemma_alike(t, body, true);
            if gap + 1 < text::rows(t) {
                assert(bare(t, body + 1));
                assert(bare(t, gap));
                assert(row_begins(t)(gap + 1));
            }
            lemma_past_paragraphs(t, gap, count - 1);
            (first, body, object::past_paragraphs(t, gap, count - 1))
        },
    }
}

// ---------------------------------------------------------------------------
// operators over objects
// ---------------------------------------------------------------------------

/// An operator over a text object works what the object covers, and rings where there is
/// no such object.
pub proof fn an_operator_works_its_object(
    s: EditorState,
    key: Key,
    operator: Operator,
    scope: ObjectScope,
    object: TextObject,
    count: Option<usize>,
)
    requires
        s.wf(),
        s.mode == Mode::Normal,
        !operator.shifts(),
        doing::completes(
            s,
            key,
            Command::Operate { operator, target: Target::Object { scope, object } },
            count,
        ),
    ensures
        match object::object_extent(s.text, s.cursor, scope, object, doing::times(count)) {
            None => puts::rang(s, key),
            Some(Extent::Chars { start, end }) => 0 <= start <= end <= s.text.len()
                ==> spans::bytes_worked(s, operator, start, end, doing::after(s, key)),
            Some(Extent::Lines { first, last }) => 0 <= first <= last < text::rows(s.text)
                ==> spans::rows_worked(s, operator, first, last, doing::after(s, key)),
        },
{
    let command = Command::Operate { operator, target: Target::Object { scope, object } };
    doing::lemma_done(s, key, command, count);
    reveal(Turn::acted);
    reveal(Turn::operated_on);
    assert(Seq::<Effect>::empty().push(Effect::Bell) =~= seq![Effect::Bell]);
    let turn = doing::opening(s, key);
    match object::object_extent(s.text, s.cursor, scope, object, doing::times(count)) {
        None => {},
        Some(Extent::Chars { start, end }) => {
            if 0 <= start <= end <= s.text.len() {
                spans::lemma_bytes_worked(turn, operator, start, end, 1);
            }
        },
        Some(Extent::Lines { first, last }) => {
            if 0 <= first <= last < text::rows(s.text) {
                spans::lemma_rows_worked(turn, operator, first, last, 1);
            }
        },
    }
}

} // verus!
