//! Walking a buffer character by character: word classes, runs, brackets and
//! quotes.

use vstd::prelude::*;
use vstd::utf8::*;

use crate::buffer::Buffer;
use crate::strings;
use crate::text;
use crate::unicode;

verus! {

// ---------------------------------------------------------------------------
// stepping
// ---------------------------------------------------------------------------

/// Where the character after the one at `byte` starts.
pub(crate) fn advance_char(buf: &Buffer, byte: usize) -> (r: usize)
    requires
        buf.wf(),
        text::bound(buf@, byte as int),
    ensures
        r == text::next(buf@, byte as int),
        text::bound(buf@, r as int),
        byte <= r <= buf@.len(),
        byte < buf@.len() ==> byte < r,
{
    proof {
        if byte < buf@.len() {
            text::lemma_next(buf@, byte as int);
        }
    }
    match buf.char_at(byte) {
        Some(ch) => byte + strings::len_utf8(ch),
        None => byte,
    }
}

/// Where the character before `byte` starts.
pub(crate) fn retreat_char(buf: &Buffer, byte: usize) -> (r: usize)
    requires
        buf.wf(),
        text::bound(buf@, byte as int),
    ensures
        r == text::prev(buf@, byte as int),
        text::bound(buf@, r as int),
        r <= byte,
        0 < byte ==> r < byte,
{
    proof {
        if byte > 0 {
            text::lemma_prev(buf@, byte as int);
        }
    }
    match buf.char_before(byte) {
        Some(ch) => byte - strings::len_utf8(ch),
        None => byte,
    }
}

/// How far `b` lies past `a`.
pub open spec fn gap(a: int, b: int) -> int {
    if a < b {
        b - a
    } else {
        0
    }
}

// ---------------------------------------------------------------------------
// word classes
// ---------------------------------------------------------------------------

/// vi's three character classes.
#[derive(Debug, Clone, Copy, PartialEq, Eq, Structural)]
pub enum Class {
    Blank,
    Word,
    Punct,
}

/// The class of `ch`. A `big` word (`W`, `B`, `E`) collapses word and punctuation
/// into one, so `foo.bar` is one WORD but three words.
pub open spec fn class_of(ch: char, big: bool) -> Class {
    if unicode::is_space(ch) {
        Class::Blank
    } else if big || unicode::is_alnum(ch) || ch == '_' {
        Class::Word
    } else {
        Class::Punct
    }
}

/// The class of the character at `i`.
pub open spec fn class_at(t: Seq<u8>, i: int, big: bool) -> Option<Class> {
    match text::char_at(t, i) {
        Some(ch) => Some(class_of(ch, big)),
        None => None,
    }
}

fn class(ch: char, big: bool) -> (r: Class)
    ensures
        r == class_of(ch, big),
{
    if unicode::whitespace(ch) {
        Class::Blank
    } else if big || unicode::alphanumeric(ch) || ch == '_' {
        Class::Word
    } else {
        Class::Punct
    }
}

fn class_here(buf: &Buffer, byte: usize, big: bool) -> (r: Option<Class>)
    requires
        buf.wf(),
        text::bound(buf@, byte as int),
    ensures
        r == class_at(buf@, byte as int, big),
        r is None <==> byte == buf@.len(),
{
    match buf.char_at(byte) {
        Some(ch) => Some(class(ch, big)),
        None => None,
    }
}

/// A kind of stretch of text.
#[derive(Debug, Clone, Copy, PartialEq, Eq, Structural)]
pub enum Run {
    /// Characters of one class.
    Same { class: Class, big: bool },
    /// Whitespace that does not leave the row.
    Inline,
}

impl Run {
    /// Whether `ch` belongs to such a stretch.
    pub open spec fn takes(self, ch: char) -> bool {
        match self {
            Run::Same { class, big } => class_of(ch, big) == class,
            Run::Inline => unicode::is_space(ch) && ch != '\n',
        }
    }

    fn accepts(self, ch: char) -> (r: bool)
        ensures
            r == self.takes(ch),
    {
        match self {
            Run::Same { class: wanted, big } => class(ch, big) == wanted,
            Run::Inline => unicode::whitespace(ch) && ch != '\n',
        }
    }
}

/// The end of the stretch of `run` that starts at `i`.
pub open spec fn run_end(t: Seq<u8>, i: int, run: Run) -> int
    decreases gap(i, t.len() as int),
{
    if 0 <= i < t.len() && run.takes(text::char_at(t, i)->0) {
        run_end(t, text::next(t, i), run)
    } else {
        i
    }
}

/// The start of the stretch of `run` that ends at `i`.
pub open spec fn run_start(t: Seq<u8>, i: int, run: Run) -> int
    decreases i,
{
    if 0 < i <= t.len() && text::prev(t, i) >= 0 && run.takes(text::char_before(t, i)->0) {
        run_start(t, text::prev(t, i), run)
    } else {
        i
    }
}

/// Back from `i` while the character there belongs to `run`, as far as the start
/// of the text.
pub open spec fn back_over(t: Seq<u8>, i: int, run: Run) -> int
    decreases i,
{
    if 0 < i < t.len() && text::prev(t, i) >= 0 && run.takes(text::char_at(t, i)->0) {
        back_over(t, text::prev(t, i), run)
    } else {
        i
    }
}

pub(crate) fn scan_run(buf: &Buffer, from: usize, run: Run) -> (r: usize)
    requires
        buf.wf(),
        text::bound(buf@, from as int),
    ensures
        r == run_end(buf@, from as int, run),
        text::bound(buf@, r as int),
        from <= r <= buf@.len(),
{
    let mut pos: usize = from;
    loop
        invariant
            buf.wf(),
            text::bound(buf@, pos as int),
            from <= pos <= buf@.len(),
            run_end(buf@, from as int, run) == run_end(buf@, pos as int, run),
        ensures
            run_end(buf@, pos as int, run) == pos,
        decreases buf@.len() - pos,
    {
        match buf.char_at(pos) {
            Some(ch) => {
                if !run.accepts(ch) {
                    break ;
                }
                pos = advance_char(buf, pos);
            },
            None => {
                break ;
            },
        }
    }
    pos
}

pub(crate) fn scan_run_back(buf: &Buffer, from: usize, run: Run) -> (r: usize)
    requires
        buf.wf(),
        text::bound(buf@, from as int),
    ensures
        r == run_start(buf@, from as int, run),
        text::bound(buf@, r as int),
        r <= from,
{
    let mut pos: usize = from;
    loop
        invariant
            buf.wf(),
            text::bound(buf@, pos as int),
            pos <= from <= buf@.len(),
            run_start(buf@, from as int, run) == run_start(buf@, pos as int, run),
        ensures
            run_start(buf@, pos as int, run) == pos,
        decreases pos,
    {
        match buf.char_before(pos) {
            Some(ch) => {
                if !run.accepts(ch) {
                    break ;
                }
                pos = retreat_char(buf, pos);
            },
            None => {
                break ;
            },
        }
    }
    pos
}

fn scan_back_over(buf: &Buffer, from: usize, run: Run) -> (r: usize)
    requires
        buf.wf(),
        text::bound(buf@, from as int),
    ensures
        r == back_over(buf@, from as int, run),
        text::bound(buf@, r as int),
        r <= from,
{
    let mut pos: usize = from;
    loop
        invariant
            buf.wf(),
            text::bound(buf@, pos as int),
            pos <= from <= buf@.len(),
            back_over(buf@, from as int, run) == back_over(buf@, pos as int, run),
        ensures
            back_over(buf@, pos as int, run) == pos,
        decreases pos,
    {
        if pos == 0 {
            break ;
        }
        match buf.char_at(pos) {
            Some(ch) => {
                if !run.accepts(ch) {
                    break ;
                }
                pos = retreat_char(buf, pos);
            },
            None => {
                break ;
            },
        }
    }
    pos
}

/// The kind of stretch that blanks make.
pub open spec fn blanks(big: bool) -> Run {
    Run::Same { class: Class::Blank, big }
}

/// `w` / `W`: the start of the next word, past the rest of this one and the blanks
/// behind it.
pub open spec fn word_forward(t: Seq<u8>, from: int, big: bool) -> int {
    let past = match class_at(t, from, big) {
        Some(class) if class != Class::Blank => run_end(t, from, Run::Same { class, big }),
        _ => from,
    };
    run_end(t, past, blanks(big))
}

pub(crate) fn next_word(buf: &Buffer, from: usize, big: bool) -> (r: usize)
    requires
        buf.wf(),
        text::bound(buf@, from as int),
    ensures
        r == word_forward(buf@, from as int, big),
        text::bound(buf@, r as int),
        from <= r,
{
    let past: usize = match class_here(buf, from, big) {
        Some(found) => if found != Class::Blank {
            scan_run(buf, from, Run::Same { class: found, big })
        } else {
            from
        },
        None => from,
    };
    scan_run(buf, past, Run::Same { class: Class::Blank, big })
}

/// `b` / `B`: the start of this word, or of the previous one.
pub open spec fn word_backward(t: Seq<u8>, from: int, big: bool) -> int {
    let pos = back_over(t, text::prev(t, from), blanks(big));
    match class_at(t, pos, big) {
        Some(class) if class != Class::Blank => run_start(t, pos, Run::Same { class, big }),
        _ => pos,
    }
}

pub(crate) fn previous_word(buf: &Buffer, from: usize, big: bool) -> (r: usize)
    requires
        buf.wf(),
        text::bound(buf@, from as int),
    ensures
        r == word_backward(buf@, from as int, big),
        text::bound(buf@, r as int),
        r <= from,
{
    let start: usize = retreat_char(buf, from);
    let pos: usize = scan_back_over(buf, start, Run::Same { class: Class::Blank, big });
    match class_here(buf, pos, big) {
        Some(found) => if found != Class::Blank {
            scan_run_back(buf, pos, Run::Same { class: found, big })
        } else {
            pos
        },
        None => pos,
    }
}

/// `e` / `E`: the last character of this word, or of the next one.
pub open spec fn word_end(t: Seq<u8>, from: int, big: bool) -> int {
    let pos = run_end(t, text::next(t, from), blanks(big));
    match class_at(t, pos, big) {
        Some(class) => text::prev(t, run_end(t, pos, Run::Same { class, big })),
        None => text::prev(t, pos),
    }
}

pub(crate) fn end_of_word(buf: &Buffer, from: usize, big: bool) -> (r: usize)
    requires
        buf.wf(),
        text::bound(buf@, from as int),
    ensures
        r == word_end(buf@, from as int, big),
        text::bound(buf@, r as int),
{
    let start: usize = advance_char(buf, from);
    let pos: usize = scan_run(buf, start, Run::Same { class: Class::Blank, big });
    match class_here(buf, pos, big) {
        Some(found) => retreat_char(buf, scan_run(buf, pos, Run::Same { class: found, big })),
        None => retreat_char(buf, pos),
    }
}

/// The run of same-class characters containing `at`; empty at the end of the text.
pub open spec fn word_run(t: Seq<u8>, at: int, big: bool) -> (int, int) {
    match class_at(t, at, big) {
        Some(class) => (
            run_start(t, at, Run::Same { class, big }),
            run_end(t, at, Run::Same { class, big }),
        ),
        None => (at, at),
    }
}

pub(crate) fn run_around(buf: &Buffer, at: usize, big: bool) -> (r: (usize, usize))
    requires
        buf.wf(),
        text::bound(buf@, at as int),
    ensures
        r.0 == word_run(buf@, at as int, big).0,
        r.1 == word_run(buf@, at as int, big).1,
        text::bound(buf@, r.0 as int),
        text::bound(buf@, r.1 as int),
        r.0 <= at <= r.1,
        at < buf@.len() ==> at < r.1,
{
    match class_here(buf, at, big) {
        Some(found) => {
            let run = Run::Same { class: found, big };
            proof {
                text::lemma_next(buf@, at as int);
                lemma_run_end_from(buf@, text::next(buf@, at as int), run);
            }
            (scan_run_back(buf, at, run), scan_run(buf, at, run))
        },
        None => (at, at),
    }
}

/// A stretch does not end before it starts.
pub proof fn lemma_run_end_from(t: Seq<u8>, i: int, run: Run)
    requires
        valid_utf8(t),
        text::bound(t, i),
    ensures
        i <= run_end(t, i, run) <= t.len(),
        text::bound(t, run_end(t, i, run)),
    decreases t.len() - i,
{
    if i < t.len() && run.takes(text::char_at(t, i)->0) {
        text::lemma_next(t, i);
        lemma_run_end_from(t, text::next(t, i), run);
    }
}

// ---------------------------------------------------------------------------
// whitespace up to a limit
// ---------------------------------------------------------------------------

/// Past the whitespace that starts at `i`, at most as far as `limit`.
pub open spec fn skip_space(t: Seq<u8>, i: int, limit: int) -> int
    decreases gap(i, limit),
{
    if 0 <= i < limit && i < t.len() && unicode::is_space(text::char_at(t, i)->0) {
        skip_space(t, text::next(t, i), limit)
    } else {
        i
    }
}

pub(crate) fn past_space(buf: &Buffer, from: usize, limit: usize) -> (r: usize)
    requires
        buf.wf(),
        text::bound(buf@, from as int),
        text::bound(buf@, limit as int),
        from <= limit,
    ensures
        r == skip_space(buf@, from as int, limit as int),
        text::bound(buf@, r as int),
        from <= r <= limit,
{
    let mut pos: usize = from;
    while pos < limit
        invariant
            buf.wf(),
            text::bound(buf@, pos as int),
            text::bound(buf@, limit as int),
            from <= pos <= limit <= buf@.len(),
            skip_space(buf@, from as int, limit as int) == skip_space(
                buf@,
                pos as int,
                limit as int,
            ),
        decreases limit - pos,
    {
        match buf.char_at(pos) {
            Some(ch) => {
                if !unicode::whitespace(ch) {
                    return pos;
                }
                proof {
                    text::lemma_next(buf@, pos as int);
                    let n = text::next(buf@, pos as int);
                    if n > limit {
                        assert(!text::bound(buf@, limit as int));
                    }
                }
                pos = advance_char(buf, pos);
            },
            None => {
                return pos;
            },
        }
    }
    pos
}

/// Whether the text of `a..b` is nothing but whitespace.
pub open spec fn all_space(t: Seq<u8>, a: int, b: int) -> bool {
    skip_space(t, a, b) == b
}

/// Whether row `row` holds nothing but whitespace.
pub open spec fn blank_row(t: Seq<u8>, row: int) -> bool {
    all_space(t, text::row_start(t, row), text::content_end(t, row))
}

pub(crate) fn is_blank_row(buf: &Buffer, row: usize) -> (r: bool)
    requires
        buf.wf(),
        row < text::rows(buf@),
    ensures
        r == blank_row(buf@, row as int),
{
    let content = buf.row_content_range(row);
    past_space(buf, content.start, content.end) == content.end
}

/// `^`: the first character of the row that is not whitespace, or its start where
/// there is none.
pub open spec fn first_non_blank(t: Seq<u8>, row: int) -> int {
    let s = text::row_start(t, row);
    let e = text::content_end(t, row);
    let p = skip_space(t, s, e);
    if p < e {
        p
    } else {
        s
    }
}

pub(crate) fn indent_end(buf: &Buffer, row: usize) -> (r: usize)
    requires
        buf.wf(),
        row < text::rows(buf@),
    ensures
        r == first_non_blank(buf@, row as int),
        text::bound(buf@, r as int),
        text::row_start(buf@, row as int) <= r <= text::content_end(buf@, row as int),
{
    let content = buf.row_content_range(row);
    let p: usize = past_space(buf, content.start, content.end);
    if p < content.end {
        p
    } else {
        content.start
    }
}

// ---------------------------------------------------------------------------
// find, row-local
// ---------------------------------------------------------------------------

/// The `n`th `target` from `i` up to `limit` that lies past `origin`.
pub open spec fn nth_after(
    t: Seq<u8>,
    i: int,
    limit: int,
    origin: int,
    target: char,
    n: int,
) -> Option<int>
    decreases gap(i, limit),
{
    if !(0 <= i < limit && i < t.len()) {
        None
    } else if i > origin && text::char_at(t, i)->0 == target {
        if n == 1 {
            Some(i)
        } else {
            nth_after(t, text::next(t, i), limit, origin, target, n - 1)
        }
    } else {
        nth_after(t, text::next(t, i), limit, origin, target, n)
    }
}

pub(crate) fn find_after(
    buf: &Buffer,
    start: usize,
    limit: usize,
    origin: usize,
    target: char,
    count: usize,
) -> (r: Option<usize>)
    requires
        buf.wf(),
        text::bound(buf@, start as int),
        text::bound(buf@, limit as int),
        start <= limit,
    ensures
        r is Some == nth_after(
            buf@,
            start as int,
            limit as int,
            origin as int,
            target,
            count as int,
        ) is Some,
        r is Some ==> r->0 == nth_after(
            buf@,
            start as int,
            limit as int,
            origin as int,
            target,
            count as int,
        )->0,
        r is Some ==> text::bound(buf@, r->0 as int) && start <= r->0 < limit,
{
    let mut seen: usize = 0;
    let mut pos: usize = start;
    while pos < limit
        invariant
            buf.wf(),
            text::bound(buf@, pos as int),
            text::bound(buf@, limit as int),
            start <= pos <= limit <= buf@.len(),
            seen <= pos,
            nth_after(
                buf@,
                start as int,
                limit as int,
                origin as int,
                target,
                count as int,
            ) == nth_after(
                buf@,
                pos as int,
                limit as int,
                origin as int,
                target,
                count - seen,
            ),
        decreases limit - pos,
    {
        proof {
            text::lemma_next(buf@, pos as int);
            let n = text::next(buf@, pos as int);
            if n > limit {
                assert(!text::bound(buf@, limit as int));
            }
        }
        if pos > origin {
            if let Some(ch) = buf.char_at(pos) {
                if ch == target {
                    seen += 1;
                    if seen == count {
                        return Some(pos);
                    }
                }
            }
        }
        pos = advance_char(buf, pos);
    }
    None
}

/// The `n`th `target` back from `i` down to `limit` that lies before `origin`.
pub open spec fn nth_before(
    t: Seq<u8>,
    i: int,
    limit: int,
    origin: int,
    target: char,
    n: int,
) -> Option<int>
    decreases i - limit,
{
    let p = text::prev(t, i);
    if !(limit < i <= t.len() && limit <= p < i) {
        None
    } else if p < origin && text::char_at(t, p)->0 == target {
        if n == 1 {
            Some(p)
        } else {
            nth_before(t, p, limit, origin, target, n - 1)
        }
    } else {
        nth_before(t, p, limit, origin, target, n)
    }
}

pub(crate) fn find_before(
    buf: &Buffer,
    end: usize,
    limit: usize,
    origin: usize,
    target: char,
    count: usize,
) -> (r: Option<usize>)
    requires
        buf.wf(),
        text::bound(buf@, end as int),
        text::bound(buf@, limit as int),
        limit <= end,
    ensures
        r is Some == nth_before(
            buf@,
            end as int,
            limit as int,
            origin as int,
            target,
            count as int,
        ) is Some,
        r is Some ==> r->0 == nth_before(
            buf@,
            end as int,
            limit as int,
            origin as int,
            target,
            count as int,
        )->0,
        r is Some ==> text::bound(buf@, r->0 as int) && limit <= r->0 < end,
{
    let mut seen: usize = 0;
    let mut pos: usize = end;
    while pos > limit
        invariant
            buf.wf(),
            text::bound(buf@, pos as int),
            text::bound(buf@, limit as int),
            limit <= pos <= end <= buf@.len(),
            seen <= end - pos,
            nth_before(
                buf@,
                end as int,
                limit as int,
                origin as int,
                target,
                count as int,
            ) == nth_before(
                buf@,
                pos as int,
                limit as int,
                origin as int,
                target,
                count - seen,
            ),
        decreases pos - limit,
    {
        proof {
            text::lemma_prev(buf@, pos as int);
            let p = text::prev(buf@, pos as int);
            if p < limit {
                assert(!text::bound(buf@, limit as int));
            }
        }
        pos = retreat_char(buf, pos);
        if pos < origin {
            if let Some(ch) = buf.char_at(pos) {
                if ch == target {
                    seen += 1;
                    if seen == count {
                        return Some(pos);
                    }
                }
            }
        }
    }
    None
}

// ---------------------------------------------------------------------------
// brackets
// ---------------------------------------------------------------------------

/// The `open` before `i` whose pair is still open there, `depth` pairs having
/// closed in between.
pub open spec fn open_before(
    t: Seq<u8>,
    i: int,
    depth: int,
    open: char,
    close: char,
) -> Option<int>
    decreases i,
{
    let p = text::prev(t, i);
    if !(0 < i <= t.len() && 0 <= p < i) {
        None
    } else {
        let ch = text::char_at(t, p)->0;
        if ch == close {
            open_before(t, p, depth + 1, open, close)
        } else if ch == open {
            if depth == 0 {
                Some(p)
            } else {
                open_before(t, p, depth - 1, open, close)
            }
        } else {
            open_before(t, p, depth, open, close)
        }
    }
}

/// The `close` at or after `i` that closes a pair, `depth` pairs having opened in
/// between.
pub open spec fn close_after(
    t: Seq<u8>,
    i: int,
    depth: int,
    open: char,
    close: char,
) -> Option<int>
    decreases gap(i, t.len() as int),
{
    if !(0 <= i < t.len()) {
        None
    } else {
        let ch = text::char_at(t, i)->0;
        if ch == open {
            close_after(t, text::next(t, i), depth + 1, open, close)
        } else if ch == close {
            if depth == 0 {
                Some(i)
            } else {
                close_after(t, text::next(t, i), depth - 1, open, close)
            }
        } else {
            close_after(t, text::next(t, i), depth, open, close)
        }
    }
}

/// The delimiters enclosing `at`, counting nesting. A position *on* either
/// delimiter counts as inside.
pub open spec fn enclosing_pair(t: Seq<u8>, at: int, open: char, close: char) -> Option<
    (int, int),
> {
    let start = if text::char_at(t, at) == Some(open) {
        Some(at)
    } else {
        open_before(t, at, 0, open, close)
    };
    match start {
        None => None,
        Some(s) => match close_after(t, text::next(t, s), 0, open, close) {
            None => None,
            Some(e) => Some((s, e)),
        },
    }
}

/// What a pair of delimiter offsets is known to be.
pub open spec fn is_pair(t: Seq<u8>, pair: (usize, usize)) -> bool {
    &&& pair.0 < pair.1 < t.len()
    &&& text::bound(t, pair.0 as int)
    &&& text::bound(t, pair.1 as int)
    &&& text::next(t, pair.0 as int) <= pair.1
}

/// Whether `r` holds the offsets of `p`.
pub open spec fn same_pair(r: Option<(usize, usize)>, p: Option<(int, int)>) -> bool {
    match (r, p) {
        (None, None) => true,
        (Some(a), Some(b)) => a.0 == b.0 && a.1 == b.1,
        _ => false,
    }
}

fn seek_open(buf: &Buffer, at: usize, open: char, close: char) -> (r: Option<usize>)
    requires
        buf.wf(),
        text::bound(buf@, at as int),
    ensures
        match r {
            Some(s) => open_before(buf@, at as int, 0, open, close) == Some(s as int) && s < at
                && text::bound(buf@, s as int),
            None => open_before(buf@, at as int, 0, open, close) is None,
        },
{
    let mut depth: usize = 0;
    let mut pos: usize = at;
    while pos > 0
        invariant
            buf.wf(),
            text::bound(buf@, pos as int),
            pos <= at <= buf@.len(),
            depth <= at - pos,
            open_before(buf@, at as int, 0, open, close) == open_before(
                buf@,
                pos as int,
                depth as int,
                open,
                close,
            ),
        decreases pos,
    {
        proof {
            text::lemma_prev(buf@, pos as int);
        }
        pos = retreat_char(buf, pos);
        match buf.char_at(pos) {
            Some(ch) => {
                if ch == close {
                    depth += 1;
                } else if ch == open {
                    if depth == 0 {
                        return Some(pos);
                    }
                    depth -= 1;
                }
            },
            None => {},
        }
    }
    None
}

fn seek_close(buf: &Buffer, from: usize, open: char, close: char) -> (r: Option<usize>)
    requires
        buf.wf(),
        text::bound(buf@, from as int),
    ensures
        match r {
            Some(e) => close_after(buf@, from as int, 0, open, close) == Some(e as int) && from
                <= e < buf@.len() && text::bound(buf@, e as int),
            None => close_after(buf@, from as int, 0, open, close) is None,
        },
{
    let mut depth: usize = 0;
    let mut pos: usize = from;
    loop
        invariant
            buf.wf(),
            text::bound(buf@, pos as int),
            from <= pos <= buf@.len(),
            depth <= pos - from,
            close_after(buf@, from as int, 0, open, close) == close_after(
                buf@,
                pos as int,
                depth as int,
                open,
                close,
            ),
        decreases buf@.len() - pos,
    {
        match buf.char_at(pos) {
            None => {
                return None;
            },
            Some(ch) => {
                proof {
                    text::lemma_next(buf@, pos as int);
                }
                if ch == open {
                    depth += 1;
                } else if ch == close {
                    if depth == 0 {
                        return Some(pos);
                    }
                    depth -= 1;
                }
                pos = advance_char(buf, pos);
            },
        }
    }
}

/// Byte offsets of the delimiters enclosing `at`, counting nesting.
///
/// A cursor sitting *on* either delimiter counts as inside, which is what makes
/// `ci(` work with the cursor on the paren itself.
pub(crate) fn pair_around(buf: &Buffer, at: usize, open: char, close: char) -> (r: Option<
    (usize, usize),
>)
    requires
        buf.wf(),
        text::bound(buf@, at as int),
    ensures
        same_pair(r, enclosing_pair(buf@, at as int, open, close)),
        r is Some ==> is_pair(buf@, r->0),
{
    let here: bool = match buf.char_at(at) {
        Some(ch) => ch == open,
        None => false,
    };
    let start: usize = if here {
        at
    } else {
        match seek_open(buf, at, open, close) {
            Some(s) => s,
            None => {
                return None;
            },
        }
    };
    let after: usize = advance_char(buf, start);
    match seek_close(buf, after, open, close) {
        Some(end) => Some((start, end)),
        None => None,
    }
}

/// The first `open` in `i..limit`, or nothing if a `close` turns up first.
pub open spec fn next_open(t: Seq<u8>, i: int, limit: int, open: char, close: char) -> Option<
    int,
>
    decreases gap(i, limit),
{
    if !(0 <= i < limit && i < t.len()) {
        None
    } else if text::char_at(t, i)->0 == open {
        Some(i)
    } else if text::char_at(t, i)->0 == close {
        None
    } else {
        next_open(t, text::next(t, i), limit, open, close)
    }
}

/// The first `open` in `from..limit`, or `None` if a `close` turns up first.
///
/// Giving up on a `close` is what vi does, and it costs nothing: in balanced text
/// an unmatched `close` ahead of the cursor means the cursor is inside a pair,
/// which [`pair_around`] has already found. Only unbalanced text can reach it.
pub(crate) fn opening_ahead(
    buf: &Buffer,
    from: usize,
    limit: usize,
    open: char,
    close: char,
) -> (r: Option<usize>)
    requires
        buf.wf(),
        text::bound(buf@, from as int),
        text::bound(buf@, limit as int),
    ensures
        match r {
            Some(p) => next_open(buf@, from as int, limit as int, open, close) == Some(p as int)
                && from <= p < limit && text::bound(buf@, p as int),
            None => next_open(buf@, from as int, limit as int, open, close) is None,
        },
{
    let mut pos: usize = from;
    while pos < limit
        invariant
            buf.wf(),
            text::bound(buf@, pos as int),
            from <= pos <= buf@.len(),
            limit <= buf@.len(),
            next_open(buf@, from as int, limit as int, open, close) == next_open(
                buf@,
                pos as int,
                limit as int,
                open,
                close,
            ),
        decreases buf@.len() - pos,
    {
        match buf.char_at(pos) {
            Some(ch) => {
                if ch == open {
                    return Some(pos);
                }
                if ch == close {
                    return None;
                }
            },
            None => {},
        }
        pos = advance_char(buf, pos);
    }
    None
}

// ---------------------------------------------------------------------------
// quotes
// ---------------------------------------------------------------------------

/// The first `quote` in `i..limit`.
pub open spec fn next_quote(t: Seq<u8>, i: int, limit: int, quote: char) -> Option<int>
    decreases gap(i, limit),
{
    if !(0 <= i < limit && i < t.len()) {
        None
    } else if text::char_at(t, i)->0 == quote {
        Some(i)
    } else {
        next_quote(t, text::next(t, i), limit, quote)
    }
}

/// A quote found lies where it was looked for.
pub proof fn lemma_next_quote(t: Seq<u8>, i: int, limit: int, quote: char)
    requires
        valid_utf8(t),
        text::bound(t, i),
        limit <= t.len(),
    ensures
        next_quote(t, i, limit, quote) matches Some(p) ==> i <= p < limit && text::bound(t, p)
            && text::next(t, p) > p,
    decreases gap(i, limit),
{
    if i < limit {
        text::lemma_next(t, i);
        if text::char_at(t, i)->0 != quote {
            lemma_next_quote(t, text::next(t, i), limit, quote);
        }
    }
}

fn seek_quote(buf: &Buffer, from: usize, limit: usize, quote: char) -> (r: Option<usize>)
    requires
        buf.wf(),
        text::bound(buf@, from as int),
        limit <= buf@.len(),
    ensures
        match r {
            Some(p) => next_quote(buf@, from as int, limit as int, quote) == Some(p as int)
                && from <= p < limit && text::bound(buf@, p as int),
            None => next_quote(buf@, from as int, limit as int, quote) is None,
        },
{
    let mut pos: usize = from;
    while pos < limit
        invariant
            buf.wf(),
            text::bound(buf@, pos as int),
            from <= pos <= buf@.len(),
            limit <= buf@.len(),
            next_quote(buf@, from as int, limit as int, quote) == next_quote(
                buf@,
                pos as int,
                limit as int,
                quote,
            ),
        decreases buf@.len() - pos,
    {
        if let Some(ch) = buf.char_at(pos) {
            if ch == quote {
                return Some(pos);
            }
        }
        pos = advance_char(buf, pos);
    }
    None
}

/// The quotes of `i..limit` taken in pairs: the first pair whose closing quote is
/// at or after `at`.
pub open spec fn quote_pair(t: Seq<u8>, i: int, limit: int, at: int, quote: char) -> Option<
    (int, int),
>
    decreases gap(i, limit),
{
    match next_quote(t, i, limit, quote) {
        None => None,
        Some(a) => match next_quote(t, text::next(t, a), limit, quote) {
            None => None,
            Some(b) => if at <= b {
                Some((a, b))
            } else if i < text::next(t, b) && i < limit {
                quote_pair(t, text::next(t, b), limit, at, quote)
            } else {
                None
            },
        },
    }
}

/// The quote pair around `at` on its row. Quotes have no nesting, so the pairs are
/// simply taken in order and the one containing `at` wins; failing that, the next
/// pair after it does.
pub open spec fn enclosing_quotes(t: Seq<u8>, at: int, quote: char) -> Option<(int, int)> {
    let row = text::row_of(t, at);
    quote_pair(t, text::row_start(t, row), text::content_end(t, row), at, quote)
}

/// Byte offsets of the quote pair around `at`, searched within the row.
///
/// Quotes have no nesting, so the pairs are simply taken in order and the one
/// containing the cursor wins; failing that, the next pair after it does, which
/// matches vi's forgiving behaviour when the cursor sits before the string.
pub(crate) fn quotes_around(buf: &Buffer, at: usize, quote: char) -> (r: Option<(usize, usize)>)
    requires
        buf.wf(),
        at <= buf@.len(),
    ensures
        same_pair(r, enclosing_quotes(buf@, at as int, quote)),
        r is Some ==> is_pair(buf@, r->0),
{
    let row: usize = buf.byte_to_point(at).row;
    let content = buf.row_content_range(row);
    let start: usize = content.start;
    let limit: usize = content.end;
    let mut pos: usize = start;
    loop
        invariant
            buf.wf(),
            text::bound(buf@, pos as int),
            start <= pos,
            limit <= buf@.len(),
            enclosing_quotes(buf@, at as int, quote) == quote_pair(
                buf@,
                pos as int,
                limit as int,
                at as int,
                quote,
            ),
        decreases buf@.len() - pos,
    {
        let a: usize = match seek_quote(buf, pos, limit, quote) {
            Some(a) => a,
            None => {
                return None;
            },
        };
        let after: usize = advance_char(buf, a);
        let b: usize = match seek_quote(buf, after, limit, quote) {
            Some(b) => b,
            None => {
                return None;
            },
        };
        if at <= b {
            return Some((a, b));
        }
        pos = advance_char(buf, b);
    }
}

} // verus!
