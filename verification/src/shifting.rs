//! What the shifts `>` and `<` promise of the rows they cover.

use vstd::prelude::*;

use crate::aiming;
use crate::buffer;
use crate::command::{Command, Mode, Operator, Target};
use crate::doing;
use crate::host::Indent;
use crate::indent;
use crate::key::Key;
use crate::motion::Extent;
use crate::spans;
use crate::state::{EditorState, Turn};
use crate::text;

verus! {

/// The largest number of columns that is told apart.
pub open spec fn capped(n: int) -> int {
    if n > usize::MAX {
        usize::MAX as int
    } else {
        n
    }
}

/// The columns between two stops of a tab.
pub open spec fn tab_of(indent: Indent) -> int {
    if indent.tab_width == 0 {
        1
    } else {
        indent.tab_width as int
    }
}

/// The column that the blanks `s` lead to: a tab goes on to the next stop.
pub open spec fn measure(s: Seq<u8>, tab: int) -> int
    decreases s.len(),
{
    if s.len() == 0 {
        0
    } else {
        let w = measure(s.drop_last(), tab);
        capped(
            if s.last() == 9u8 {
                w - w % tab + tab
            } else {
                w + 1
            },
        )
    }
}

/// Whether `x` is an indent of `w` columns: spaces, or as many tabs as fit and then
/// spaces.
pub open spec fn indent_of(indent: Indent, w: int, x: Seq<u8>) -> bool {
    if indent.use_tabs {
        exists|k: int|
            0 <= k <= x.len() && w == k * tab_of(indent) + (x.len() - k) && x.len() - k < tab_of(
                indent,
            ) && #[trigger] filled(x, 0, k, 9u8) && filled(x, k, x.len() as int, 32u8)
    } else {
        x.len() == w && filled(x, 0, w, 32u8)
    }
}

/// Whether every byte of `x` from `i` up to `j` is `b`.
pub open spec fn filled(x: Seq<u8>, i: int, j: int, b: u8) -> bool {
    forall|m: int| i <= m < j ==> #[trigger] x[m] == b
}

/// Whether row `row` begins with `n` spaces and tabs, and no more.
pub open spec fn dented(t: Seq<u8>, row: int, n: int) -> bool {
    let a = text::row_start(t, row);
    let b = text::content_end(t, row);
    &&& 0 <= n <= b - a
    &&& forall|m: int| a <= m < a + n ==> #[trigger] t[m] == 32u8 || t[m] == 9u8
    &&& a + n < b ==> t[a + n] != 32u8 && t[a + n] != 9u8
}

/// Whether `x` is the indent that a shift by `columns` gives to row `row`, which begins
/// with `n` blanks. A row without text is left as it is.
pub open spec fn reindented(
    t: Seq<u8>,
    row: int,
    indent: Indent,
    right: bool,
    columns: int,
    n: int,
    x: Seq<u8>,
) -> bool {
    let a = text::row_start(t, row);
    let w = measure(t.subrange(a, a + n), tab_of(indent));
    &&& dented(t, row, n)
    &&& if a == text::content_end(t, row) {
        x.len() == 0
    } else if right {
        indent_of(indent, capped(w + columns), x)
    } else {
        indent_of(indent, if w < columns {
            0
        } else {
            w - columns
        }, x)
    }
}

/// The rows from `first` on, `ns.len()` of them, each with its `n` blanks replaced.
pub open spec fn laid(t: Seq<u8>, first: int, ns: Seq<int>, xs: Seq<Seq<u8>>) -> Seq<u8>
    decreases ns.len(),
{
    if ns.len() == 0 {
        Seq::empty()
    } else {
        let row = first + ns.len() - 1;
        laid(t, first, ns.drop_last(), xs) + xs[ns.len() - 1] + t.subrange(
            text::row_start(t, row) + ns.last(),
            text::row_end(t, row),
        )
    }
}

// ---------------------------------------------------------------------------
// indents
// ---------------------------------------------------------------------------

proof fn lemma_indent_len(s: Seq<u8>, i: int)
    requires
        0 <= i <= s.len(),
    ensures
        ({
            let n = indent::indent_len(s, i);
            &&& i <= n <= s.len()
            &&& forall|m: int| i <= m < n ==> #[trigger] s[m] == 32u8 || s[m] == 9u8
            &&& n < s.len() ==> s[n] != 32u8 && s[n] != 9u8
        }),
    decreases s.len() - i,
{
    if i < s.len() && (s[i] == 32u8 || s[i] == 9u8) {
        lemma_indent_len(s, i + 1);
    }
}

proof fn lemma_measure(s: Seq<u8>, n: int, tab: int)
    requires
        0 <= n <= s.len(),
        tab >= 1,
    ensures
        indent::indent_width(s, n, tab) == measure(s.take(n), tab),
        measure(s.take(n), tab) >= 0,
    decreases n,
{
    if n > 0 {
        lemma_measure(s, n - 1, tab);
        assert(s.take(n).drop_last() =~= s.take(n - 1));
        assert(s.take(n).last() == s[n - 1]);
        let w = measure(s.take(n - 1), tab);
        assert(0 <= w % tab < tab) by (nonlinear_arith)
            requires
                tab >= 1,
        ;
    }
}

proof fn lemma_indentation(indent: Indent, w: int)
    requires
        w >= 0,
    ensures
        indent_of(indent, w, indent::indentation(indent, w)),
{
    let x = indent::indentation(indent, w);
    let tab = tab_of(indent);
    if indent.use_tabs {
        let k = w / tab;
        assert(w == k * tab + w % tab && 0 <= w % tab < tab && k >= 0) by (nonlinear_arith)
            requires
                tab >= 1,
                w >= 0,
                k == w / tab,
        ;
        assert(x.len() == k + w % tab);
        assert(filled(x, 0, k, 9u8));
        assert(filled(x, k, x.len() as int, 32u8));
    }
}

// ---------------------------------------------------------------------------
// rows
// ---------------------------------------------------------------------------

spec fn blanks(t: Seq<u8>, row: int) -> int {
    indent::indent_len(t.subrange(text::row_start(t, row), text::content_end(t, row)), 0)
}

spec fn dent(s: EditorState, t: Seq<u8>, row: int, operator: Operator, columns: int) -> Seq<u8> {
    let a = text::row_start(t, row);
    let b = text::content_end(t, row);
    let content = t.subrange(a, b);
    let w = indent::indent_width(content, blanks(t, row), tab_of(s.indent));
    if a == b {
        Seq::empty()
    } else if operator is ShiftRight {
        indent::indentation(s.indent, capped(w + columns))
    } else {
        indent::indentation(s.indent, if w < columns {
            0
        } else {
            w - columns
        })
    }
}

proof fn lemma_dent(s: EditorState, t: Seq<u8>, row: int, operator: Operator, columns: int)
    requires
        0 <= row < text::rows(t),
        0 <= columns,
    ensures
        reindented(
            t,
            row,
            s.indent,
            operator is ShiftRight,
            columns,
            blanks(t, row),
            dent(s, t, row, operator, columns),
        ),
{
    let a = text::row_start(t, row);
    let b = text::content_end(t, row);
    let content = t.subrange(a, b);
    let n = blanks(t, row);
    text::lemma_rows(t, row);
    lemma_indent_len(content, 0);
    lemma_measure(content, n, tab_of(s.indent));
    assert(content.take(n) =~= t.subrange(a, a + n));
    assert forall|m: int| a <= m < a + n implies #[trigger] t[m] == 32u8 || t[m] == 9u8 by {
        assert(content[m - a] == t[m]);
    }
    if a + n < b {
        assert(content[n] == t[a + n]);
    }
    let w = measure(t.subrange(a, a + n), tab_of(s.indent));
    lemma_indentation(s.indent, capped(w + columns));
    lemma_indentation(s.indent, if w < columns {
        0
    } else {
        w - columns
    });
}

/// Rows of texts that begin alike.
proof fn lemma_prefix(t: Seq<u8>, w: Seq<u8>, row: int)
    requires
        0 <= row < text::rows(t),
        row + 1 < text::rows(t),
        text::row_end(t, row) <= w.len(),
        w.take(text::row_end(t, row)) == t.take(text::row_end(t, row)),
    ensures
        0 <= row < text::rows(w),
        text::row_start(w, row) == text::row_start(t, row),
        text::row_end(w, row) == text::row_end(t, row),
        text::content_end(w, row) == text::content_end(t, row),
{
    let a = text::row_start(t, row);
    let e = text::row_end(t, row);
    text::lemma_rows(t, row);
    text::lemma_row_start(t, row);
    text::lemma_row_start(t, row + 1);
    assert forall|m: int| 0 <= m < e implies #[trigger] w[m] == t[m] by {
        assert(w.take(e)[m] == t.take(e)[m]);
    }
    text::lemma_newlines_prefix(t, w, a);
    text::lemma_newlines_prefix(t, w, e);
    text::lemma_newlines_mono(w, e, w.len() as int);
    text::lemma_row_start(w, row);
    text::lemma_row_start(w, row + 1);
    text::lemma_starts_row_unique(w, row, a, text::row_start(w, row));
    text::lemma_starts_row_unique(w, row + 1, e, text::row_start(w, row + 1));
}

spec fn all_blanks(t: Seq<u8>, first: int, row: int) -> Seq<int> {
    Seq::new((row - first + 1) as nat, |i: int| blanks(t, first + i))
}

spec fn all_dents(
    s: EditorState,
    t: Seq<u8>,
    first: int,
    row: int,
    operator: Operator,
    columns: int,
) -> Seq<Seq<u8>> {
    Seq::new((row - first + 1) as nat, |i: int| dent(s, t, first + i, operator, columns))
}

proof fn lemma_laid_same(t: Seq<u8>, first: int, ns: Seq<int>, xs: Seq<Seq<u8>>, ys: Seq<Seq<u8>>)
    requires
        forall|i: int| 0 <= i < ns.len() ==> #[trigger] xs[i] == ys[i],
    ensures
        laid(t, first, ns, xs) == laid(t, first, ns, ys),
    decreases ns.len(),
{
    if ns.len() > 0 {
        lemma_laid_same(t, first, ns.drop_last(), xs, ys);
        assert(xs[ns.len() - 1] == ys[ns.len() - 1]);
    }
}

/// Whether `w` is `t` up to the end of row `row`.
spec fn kept(t: Seq<u8>, w: Seq<u8>, row: int) -> bool {
    &&& 0 <= text::row_end(t, row) <= w.len()
    &&& text::row_end(t, row) <= t.len()
    &&& w.take(text::row_end(t, row)) == t.take(text::row_end(t, row))
    &&& row + 1 < text::rows(t) || w == t
}

proof fn lemma_row_shifted(a: Turn, t: Seq<u8>, row: int, operator: Operator, columns: int)
    requires
        operator.shifts(),
        0 <= row < text::rows(t),
        0 <= columns,
        kept(t, a.state.text, row),
        a.state.text.len() <= buffer::MAX_LEN,
        a.state.text.len() + dent(a.state, t, row, operator, columns).len() <= buffer::MAX_LEN,
    ensures
        ({
            let w = a.state.text;
            let x = dent(a.state, t, row, operator, columns);
            let s = text::row_start(t, row);
            let n = blanks(t, row);
            let c = a.row_shifted(row, operator, columns);
            &&& c.state.text == w.take(s) + x + w.skip(s + n)
            &&& c.state.indent == a.state.indent
            &&& c.state.register == a.state.register
            &&& c.state.mode == a.state.mode
            &&& 0 <= s <= s + n <= text::row_end(t, row) <= w.len()
        }),
{
    reveal(Turn::row_shifted);
    let w = a.state.text;
    text::lemma_rows(t, row);
    if row + 1 < text::rows(t) {
        lemma_prefix(t, w, row);
    }
    let s = text::row_start(t, row);
    let b = text::content_end(t, row);
    let e = text::row_end(t, row);
    assert(w.subrange(s, b) =~= w.take(e).subrange(s, b));
    assert(t.subrange(s, b) =~= t.take(e).subrange(s, b));
    let content = t.subrange(s, b);
    let n = blanks(t, row);
    let x = dent(a.state, t, row, operator, columns);
    lemma_indent_len(content, 0);
    lemma_measure(content, n, tab_of(a.state.indent));
    spans::lemma_edited(a, s, s + n, x);
    if s == b || x == content.take(n) {
        assert(content.take(n) =~= w.subrange(s, s + n));
        assert(x =~= w.subrange(s, s + n));
        assert(w =~= w.take(s) + x + w.skip(s + n));
    }
}

/// The pieces of a text put together in the order they stand.
proof fn lemma_pieces(t: Seq<u8>, w: Seq<u8>, head: Seq<u8>, low: Seq<u8>, x: Seq<u8>, s: int, p: int, e: int)
    requires
        0 <= s <= p <= e <= w.len(),
        e <= t.len(),
        w.take(e) == t.take(e),
    ensures
        (w.take(s) + x + w.skip(p)).take(s) == t.take(s),
        head + low + (w.take(s) + x + w.skip(p)).skip(s) == head + (low + x + t.subrange(p, e))
            + w.skip(e),
{
    assert(w.take(s) =~= w.take(e).take(s));
    assert(t.take(s) =~= t.take(e).take(s));
    let c = w.take(s) + x + w.skip(p);
    assert(c.take(s) =~= w.take(s));
    assert(w.subrange(p, e) =~= w.take(e).subrange(p, e));
    assert(t.subrange(p, e) =~= t.take(e).subrange(p, e));
    assert(w.skip(p) =~= w.subrange(p, e) + w.skip(e));
    assert(c.skip(s) =~= x + w.skip(p));
    assert(head + low + (x + (t.subrange(p, e) + w.skip(e))) =~= head + (low + x + t.subrange(
        p,
        e,
    )) + w.skip(e));
}

proof fn lemma_rows_shifted(
    a: Turn,
    t: Seq<u8>,
    first: int,
    row: int,
    operator: Operator,
    columns: int,
)
    requires
        operator.shifts(),
        0 <= first < text::rows(t),
        first - 1 <= row < text::rows(t),
        0 <= columns,
        kept(t, a.state.text, row),
        a.state.text.len() + laid(
            t,
            first,
            all_blanks(t, first, row),
            all_dents(a.state, t, first, row, operator, columns),
        ).len() <= buffer::MAX_LEN,
    ensures
        ({
            let u = a.rows_shifted(first, row, operator, columns).state;
            &&& u.text == t.take(text::row_start(t, first)) + laid(
                t,
                first,
                all_blanks(t, first, row),
                all_dents(a.state, t, first, row, operator, columns),
            ) + a.state.text.skip(text::row_end(t, row))
            &&& u.register == a.state.register
            &&& u.mode == a.state.mode
        }),
    decreases row - first + 1,
{
    let w = a.state.text;
    let ns = all_blanks(t, first, row);
    let xs = all_dents(a.state, t, first, row, operator, columns);
    let head = t.take(text::row_start(t, first));
    let e = text::row_end(t, row);
    if row < first {
        assert(ns =~= Seq::<int>::empty());
        assert(e == text::row_start(t, first));
        assert(w =~= w.take(e) + w.skip(e));
        assert(head + laid(t, first, ns, xs) + w.skip(e) =~= w);
    } else {
        let s = text::row_start(t, row);
        let n = blanks(t, row);
        let x = dent(a.state, t, row, operator, columns);
        assert(ns.drop_last() =~= all_blanks(t, first, row - 1));
        assert(ns.last() == n);
        assert(xs[ns.len() - 1] == x);
        let low = laid(t, first, ns.drop_last(), xs);
        assert(laid(t, first, ns, xs) == low + x + t.subrange(s + n, e));
        lemma_row_shifted(a, t, row, operator, columns);
        let c = a.row_shifted(row, operator, columns);
        let ys = all_dents(c.state, t, first, row - 1, operator, columns);
        lemma_laid_same(t, first, ns.drop_last(), xs, ys);
        lemma_pieces(t, w, head, low, x, s, s + n, e);
        assert(text::row_end(t, row - 1) == s);
        lemma_rows_shifted(c, t, first, row - 1, operator, columns);
    }
}

/// `>>` and `<<` move the text of as many rows as their count says, from the cursor's row
/// on: each row's indent grows or shrinks by the columns of one shift, not below nought,
/// and what follows the indent stays. Rows without text are left alone.
pub proof fn a_doubled_shift_moves_rows(
    s: EditorState,
    key: Key,
    operator: Operator,
    count: Option<usize>,
) -> (r: (Seq<int>, Seq<Seq<u8>>))
    requires
        s.wf(),
        s.mode == Mode::Normal,
        doing::times(count) >= 1,
        operator.shifts(),
        doing::completes(s, key, Command::Operate { operator, target: Target::CurrentRow }, count),
    ensures
        ({
            let t = s.text;
            let first = text::row_of(t, s.cursor);
            let n = aiming::least(doing::times(count), text::rows(t) - first);
            let u = doing::after(s, key);
            let (ns, xs) = r;
            &&& ns.len() == n
            &&& xs.len() == n
            &&& forall|i: int|
                0 <= i < n ==> reindented(
                    t,
                    first + i,
                    s.indent,
                    operator is ShiftRight,
                    s.indent.shift_width as int,
                    ns[i],
                    #[trigger] xs[i],
                )
            &&& t.len() + laid(t, first, ns, xs).len() <= buffer::MAX_LEN ==> u.text == t.take(
                text::row_start(t, first),
            ) + laid(t, first, ns, xs) + t.skip(text::row_end(t, first + n - 1))
            &&& t.len() + laid(t, first, ns, xs).len() <= buffer::MAX_LEN ==> u.register
                == s.register && u.mode == s.mode
        }),
{
    let t = s.text;
    let first = text::row_of(t, s.cursor);
    let n = aiming::least(doing::times(count), text::rows(t) - first);
    let last = first + n - 1;
    let columns = s.indent.shift_width as int;
    text::lemma_row_of(t, s.cursor);
    let a = doing::opening(s, key);
    let ns = all_blanks(t, first, last);
    let xs = all_dents(a.state, t, first, last, operator, columns);
    doing::lemma_done(s, key, Command::Operate { operator, target: Target::CurrentRow }, count);
    assert forall|i: int| 0 <= i < n implies reindented(
        t,
        first + i,
        s.indent,
        operator is ShiftRight,
        columns,
        ns[i],
        #[trigger] xs[i],
    ) by {
        lemma_dent(a.state, t, first + i, operator, columns);
    }
    if t.len() + laid(t, first, ns, xs).len() <= buffer::MAX_LEN {
        reveal(Turn::acted);
        reveal(Turn::operated_on);
        reveal(Turn::operated);
        reveal(Turn::performed);
        text::lemma_rows(t, last);
        assert(columns * 1 == columns);
        assert(kept(t, t, last));
        lemma_rows_shifted(a, t, first, last, operator, columns);
    }
    (ns, xs)
}

/// A shift of a selection moves the text of its rows by as many shifts as the count says.
pub proof fn a_shift_moves_the_rows_of_a_selection(
    s: EditorState,
    key: Key,
    operator: Operator,
    first: int,
    last: int,
    count: Option<usize>,
) -> (r: (Seq<int>, Seq<Seq<u8>>))
    requires
        s.wf(),
        s.mode is Visual,
        operator.shifts(),
        doing::completes(s, key, Command::Operate { operator, target: Target::Selection }, count),
        s.selected() == Some(Extent::Lines { first, last }) || exists|a: int, b: int| #[trigger]
            chars(a, b) == s.selected() && 0 <= a < b <= s.text.len() && first == text::row_of(
            s.text,
            a,
        ) && last == text::row_of(s.text, b - 1),
        0 <= first <= last < text::rows(s.text),
    ensures
        ({
            let t = s.text;
            let n = last - first + 1;
            let u = doing::after(s, key);
            let (ns, xs) = r;
            &&& ns.len() == n
            &&& xs.len() == n
            &&& forall|i: int|
                0 <= i < n ==> reindented(
                    t,
                    first + i,
                    s.indent,
                    operator is ShiftRight,
                    capped(s.indent.shift_width * doing::times(count)),
                    ns[i],
                    #[trigger] xs[i],
                )
            &&& t.len() + laid(t, first, ns, xs).len() <= buffer::MAX_LEN ==> {
                &&& u.text == t.take(text::row_start(t, first)) + laid(t, first, ns, xs) + t.skip(
                    text::row_end(t, last),
                )
                &&& u.register == s.register
                &&& u.mode == Mode::Normal
            }
        }),
{
    let t = s.text;
    let n = last - first + 1;
    let columns = capped(s.indent.shift_width * doing::times(count));
    assert(0 <= s.indent.shift_width * doing::times(count)) by (nonlinear_arith)
        requires
            0 <= s.indent.shift_width,
            0 <= doing::times(count),
    ;
    let command = Command::Operate { operator, target: Target::Selection };
    let turn = doing::opening(s, key);
    let a = turn.to(turn.state.selection_marked());
    let ns = all_blanks(t, first, last);
    let xs = all_dents(a.state, t, first, last, operator, columns);
    doing::lemma_done(s, key, command, count);
    assert(turn.acted(command, count) == turn.operated_on(operator, Target::Selection, count)) by {
        reveal(Turn::acted);
    }
    assert(turn.state.selected() == s.selected());
    assert forall|i: int| 0 <= i < n implies reindented(
        t,
        first + i,
        s.indent,
        operator is ShiftRight,
        columns,
        ns[i],
        #[trigger] xs[i],
    ) by {
        lemma_dent(a.state, t, first + i, operator, columns);
    }
    if t.len() + laid(t, first, ns, xs).len() <= buffer::MAX_LEN {
        reveal(Turn::operated_on);
        reveal(Turn::operated);
        reveal(Turn::performed);
        text::lemma_rows(t, last);
        assert(kept(t, t, last));
        lemma_rows_shifted(a, t, first, last, operator, columns);
    }
    (ns, xs)
}

/// A selection by characters.
pub open spec fn chars(a: int, b: int) -> Option<Extent> {
    Some(Extent::Chars { start: a, end: b })
}

} // verus!
