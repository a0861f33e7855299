//! What the word motions `w`, `b` and `e` and their big forms promise.
//!
//! A word begins at a character that is not blank and is not of the sort of the one
//! before it, and ends at one that is not of the sort of the one after it. A motion
//! counts such places.

use vstd::prelude::*;
use vstd::utf8::*;

use crate::command::{Command, Motion};
use crate::doing;
use crate::grapheme;
use crate::key::Key;
use crate::motion;
use crate::motion::WordMove;
use crate::scan;
use crate::scan::{Class, Run};
use crate::state::{EditorState, Turn};
use crate::text;
use crate::unicode;

verus! {

/// What sort of character `c` is: a blank is of sort 0; letters, digits and `_` are of
/// sort 1; what is left is of sort 2, or of sort 1 too where words are big.
pub open spec fn sort(c: char, big: bool) -> int {
    if unicode::is_space(c) {
        0
    } else if big {
        1
    } else if unicode::is_alnum(c) || c == '_' {
        1
    } else {
        2
    }
}

/// Whether a word begins at `p`.
pub open spec fn begins(t: Seq<u8>, big: bool) -> spec_fn(int) -> bool {
    |p: int|
        {
            &&& 0 <= p < t.len()
            &&& text::bound(t, p)
            &&& sort(text::char_at(t, p)->0, big) != 0
            &&& p == 0 || sort(text::char_before(t, p)->0, big) != sort(
                text::char_at(t, p)->0,
                big,
            )
        }
}

/// Whether the character at `p` is the last of a word.
pub open spec fn finishes(t: Seq<u8>, big: bool) -> spec_fn(int) -> bool {
    |p: int|
        {
            &&& 0 <= p < t.len()
            &&& text::bound(t, p)
            &&& sort(text::char_at(t, p)->0, big) != 0
            &&& text::next(t, p) >= t.len() || sort(
                text::char_at(t, text::next(t, p))->0,
                big,
            ) != sort(text::char_at(t, p)->0, big)
        }
}

/// Whether `n` words forward from `from` is at `p`: the `n`th beginning past it, or the
/// end of the text where there are fewer.
pub open spec fn words_on(t: Seq<u8>, from: int, big: bool, n: int, p: int) -> bool {
    let f = begins(t, big);
    ||| f(p) && from < p && doing::tally(f, from + 1, p) == n - 1
    ||| p == t.len() && doing::tally(f, from + 1, t.len() as int) < n
}

/// Whether `n` words backward from `from` is at `p`: the `n`th beginning before it, or
/// the start of the text where there are fewer.
pub open spec fn words_back(t: Seq<u8>, from: int, big: bool, n: int, p: int) -> bool {
    let f = begins(t, big);
    ||| f(p) && p < from && doing::tally(f, p + 1, from) == n - 1
    ||| p == 0 && doing::tally(f, 0, from) < n
}

/// Whether `n` words forward from `from` end at `p`: at the `n`th last character past
/// it, or at the last character of the text where there are fewer.
pub open spec fn word_ends_on(t: Seq<u8>, from: int, big: bool, n: int, p: int) -> bool {
    let f = finishes(t, big);
    ||| f(p) && from < p && doing::tally(f, from + 1, p) == n - 1
    ||| p == text::prev(t, t.len() as int) && doing::tally(f, from + 1, t.len() as int) < n
}

/// The sorts are the classes.
pub(crate) proof fn lemma_sort(c: char, d: char, big: bool)
    ensures
        sort(c, big) == 0 <==> scan::class_of(c, big) == Class::Blank,
        sort(c, big) == sort(d, big) <==> scan::class_of(c, big) == scan::class_of(d, big),
{
}

/// What lies in a stretch, and what follows it.
pub(crate) proof fn lemma_run_end(t: Seq<u8>, i: int, run: Run)
    requires
        valid_utf8(t),
        text::bound(t, i),
    ensures
        ({
            let e = scan::run_end(t, i, run);
            &&& i <= e <= t.len()
            &&& text::bound(t, e)
            &&& e < t.len() ==> !run.takes(text::char_at(t, e)->0)
            &&& forall|j: int|
                i <= j < e && #[trigger] text::bound(t, j) ==> run.takes(text::char_at(t, j)->0)
        }),
    decreases t.len() - i,
{
    if i < t.len() && run.takes(text::char_at(t, i)->0) {
        text::lemma_next(t, i);
        lemma_run_end(t, text::next(t, i), run);
    }
}

/// What lies in a stretch, and what stands before it.
pub(crate) proof fn lemma_run_start(t: Seq<u8>, i: int, run: Run)
    requires
        valid_utf8(t),
        text::bound(t, i),
    ensures
        ({
            let e = scan::run_start(t, i, run);
            &&& 0 <= e <= i
            &&& text::bound(t, e)
            &&& 0 < e ==> !run.takes(text::char_before(t, e)->0)
            &&& forall|j: int|
                e <= j < i && #[trigger] text::bound(t, j) ==> run.takes(text::char_at(t, j)->0)
        }),
    decreases i,
{
    if 0 < i {
        text::lemma_prev(t, i);
        if run.takes(text::char_before(t, i)->0) {
            lemma_run_start(t, text::prev(t, i), run);
        }
    }
}

/// Back over a stretch.
proof fn lemma_back_over(t: Seq<u8>, i: int, run: Run)
    requires
        valid_utf8(t),
        text::bound(t, i),
    ensures
        ({
            let e = scan::back_over(t, i, run);
            &&& 0 <= e <= i
            &&& text::bound(t, e)
            &&& 0 < e < t.len() ==> !run.takes(text::char_at(t, e)->0)
            &&& forall|j: int|
                e < j <= i && j < t.len() && #[trigger] text::bound(t, j) ==> run.takes(
                    text::char_at(t, j)->0,
                )
        }),
    decreases i,
{
    if 0 < i {
        text::lemma_prev(t, i);
        if i < t.len() && run.takes(text::char_at(t, i)->0) {
            lemma_back_over(t, text::prev(t, i), run);
        }
    }
}

/// The character before a boundary is the one at the boundary before it.
proof fn lemma_before(t: Seq<u8>, j: int)
    requires
        valid_utf8(t),
        text::bound(t, j),
        0 < j,
    ensures
        ({
            let i = text::prev(t, j);
            &&& 0 <= i < j
            &&& text::bound(t, i)
            &&& text::char_before(t, j) == text::char_at(t, i)
            &&& text::next(t, i) == j
            &&& forall|k: int| i < k < j ==> !text::bound(t, k)
        }),
{
    text::lemma_prev(t, j);
}

/// One word forward.
proof fn lemma_word_forward(t: Seq<u8>, from: int, big: bool)
    requires
        valid_utf8(t),
        text::bound(t, from),
    ensures
        ({
            let p = scan::word_forward(t, from, big);
            let f = begins(t, big);
            &&& from <= p <= t.len()
            &&& text::bound(t, p)
            &&& p < t.len() ==> f(p) && from < p
            &&& forall|j: int| from < j < p ==> !#[trigger] f(j)
        }),
{
    let f = begins(t, big);
    let past = match scan::class_at(t, from, big) {
        Some(class) if class != Class::Blank => scan::run_end(t, from, Run::Same { class, big }),
        _ => from,
    };
    if from < t.len() {
        let class = scan::class_at(t, from, big)->0;
        if class != Class::Blank {
            lemma_run_end(t, from, Run::Same { class, big });
            assert(past > from) by {
                text::lemma_next(t, from);
                lemma_run_end(t, text::next(t, from), Run::Same { class, big });
            }
        }
    }
    lemma_run_end(t, past, scan::blanks(big));
    let p = scan::run_end(t, past, scan::blanks(big));
    assert forall|j: int| from < j < p implies !#[trigger] f(j) by {
        if text::bound(t, j) && j < past {
            lemma_before(t, j);
            let i = text::prev(t, j);
            if i < from {
                assert(text::bound(t, from));
            }
            assert(text::bound(t, i));
        }
    }
    if p < t.len() {
        if p == from {
            assert(false);
        }
        lemma_before(t, p);
        let i = text::prev(t, p);
        if i < from {
            assert(text::bound(t, from));
        }
        assert(text::bound(t, i));
        if i < past && past < p {
            assert(text::bound(t, past));
        }
    }
}

/// One word back.
proof fn lemma_word_backward(t: Seq<u8>, from: int, big: bool)
    requires
        valid_utf8(t),
        text::bound(t, from),
    ensures
        ({
            let p = scan::word_backward(t, from, big);
            let f = begins(t, big);
            &&& 0 <= p <= from
            &&& text::bound(t, p)
            &&& f(p) && p < from || p == 0 && (forall|j: int| 0 <= j < from ==> !#[trigger] f(j))
            &&& forall|j: int| p < j < from ==> !#[trigger] f(j)
        }),
{
    let f = begins(t, big);
    text::lemma_ends(t);
    if from > 0 {
        lemma_before(t, from);
        let before = text::prev(t, from);
        let pos = scan::back_over(t, before, scan::blanks(big));
        lemma_back_over(t, before, scan::blanks(big));
        let class = scan::class_at(t, pos, big)->0;
        let run = Run::Same { class, big };
        let p = scan::word_backward(t, from, big);
        if class != Class::Blank {
            lemma_run_start(t, pos, run);
            assert(run.takes(text::char_at(t, pos)->0));
            assert(text::bound(t, p));
            assert(run.takes(text::char_at(t, p)->0));
            assert(f(p));
        }
        assert forall|j: int| p < j < from implies !#[trigger] f(j) by {
            if text::bound(t, j) {
                if j <= pos {
                    lemma_before(t, j);
                    let i = text::prev(t, j);
                    if i < p {
                        assert(text::bound(t, p));
                    }
                    assert(text::bound(t, i));
                    assert(run.takes(text::char_at(t, i)->0));
                    assert(run.takes(text::char_at(t, j)->0));
                } else {
                    assert(j <= before);
                }
            }
        }
        if class == Class::Blank {
            assert(p == 0);
            assert(!f(0));
        }
    } else {
        let pos = scan::back_over(t, text::prev(t, 0), scan::blanks(big));
        assert(text::prev(t, 0) == 0);
        assert(pos == 0);
        if 0 < t.len() {
            let run = Run::Same { class: scan::class_at(t, 0, big)->0, big };
            lemma_run_start(t, 0, run);
        }
    }
}

/// One word end on.
proof fn lemma_word_end(t: Seq<u8>, from: int, big: bool)
    requires
        valid_utf8(t),
        text::bound(t, from),
    ensures
        ({
            let p = scan::word_end(t, from, big);
            let f = finishes(t, big);
            &&& 0 <= p <= t.len()
            &&& text::bound(t, p)
            &&& f(p) && from < p && (forall|j: int| from < j < p ==> !#[trigger] f(j)) || p
                == text::prev(t, t.len() as int) && (forall|j: int|
                from < j < t.len() ==> !#[trigger] f(j))
        }),
{
    let f = finishes(t, big);
    let n = t.len() as int;
    text::lemma_ends(t);
    if n > 0 {
        lemma_before(t, n);
    }
    if from < n {
        text::lemma_next(t, from);
        let start = text::next(t, from);
        let pos = scan::run_end(t, start, scan::blanks(big));
        lemma_run_end(t, start, scan::blanks(big));
        if pos < n {
            let class = scan::class_at(t, pos, big)->0;
            let run = Run::Same { class, big };
            lemma_run_end(t, pos, run);
            let e = scan::run_end(t, pos, run);
            assert(e > pos) by {
                text::lemma_next(t, pos);
                lemma_run_end(t, text::next(t, pos), run);
            }
            lemma_before(t, e);
            let p = text::prev(t, e);
            assert(p == scan::word_end(t, from, big));
            if p < pos {
                assert(text::bound(t, pos));
            }
            assert(run.takes(text::char_at(t, p)->0));
            assert(f(p));
            assert forall|j: int| from < j < p implies !#[trigger] f(j) by {
                if text::bound(t, j) && j >= pos {
                    text::lemma_next(t, j);
                    let k = text::next(t, j);
                    if k > p {
                        assert(text::bound(t, p));
                    }
                    assert(text::bound(t, k));
                    assert(run.takes(text::char_at(t, k)->0));
                    assert(run.takes(text::char_at(t, j)->0));
                }
            }
        } else {
            assert forall|j: int| from < j < n implies !#[trigger] f(j) by {}
        }
    }
}

pub(crate) proof fn lemma_words_on(t: Seq<u8>, from: int, big: bool, n: int)
    requires
        valid_utf8(t),
        text::bound(t, from),
        n >= 1,
    ensures
        words_on(t, from, big, n, motion::word_steps(t, from, WordMove::Forward, big, n)),
    decreases n,
{
    let f = begins(t, big);
    let q = motion::word_step(t, from, WordMove::Forward, big);
    lemma_word_forward(t, from, big);
    doing::lemma_tally_none(f, from + 1, q);
    if n > 1 {
        lemma_words_on(t, q, big, n - 1);
        let p = motion::word_steps(t, q, WordMove::Forward, big, n - 1);
        let far = if f(p) && q < p {
            p
        } else {
            t.len() as int
        };
        if q < t.len() {
            if q < far {
                doing::lemma_tally_at(f, from + 1, q, far);
            }
        }
    } else {
        reveal_with_fuel(motion::word_steps, 2);
    }
}

pub(crate) proof fn lemma_words_back(t: Seq<u8>, from: int, big: bool, n: int)
    requires
        valid_utf8(t),
        text::bound(t, from),
        n >= 1,
    ensures
        words_back(t, from, big, n, motion::word_steps(t, from, WordMove::Backward, big, n)),
    decreases n,
{
    let f = begins(t, big);
    let q = motion::word_step(t, from, WordMove::Backward, big);
    lemma_word_backward(t, from, big);
    doing::lemma_tally_none(f, q + 1, from);
    if !(f(q) && q < from) {
        doing::lemma_tally_none(f, 0, from);
    }
    if n > 1 {
        lemma_words_back(t, q, big, n - 1);
        let p = motion::word_steps(t, q, WordMove::Backward, big, n - 1);
        if f(q) && q < from {
            let near = if f(p) && p < q && doing::tally(f, p + 1, q) == n - 2 {
                p + 1
            } else {
                0
            };
            doing::lemma_tally_at(f, near, q, from);
        }
    } else {
        reveal_with_fuel(motion::word_steps, 2);
    }
}

pub(crate) proof fn lemma_word_ends_on(t: Seq<u8>, from: int, big: bool, n: int)
    requires
        valid_utf8(t),
        text::bound(t, from),
        n >= 1,
    ensures
        word_ends_on(t, from, big, n, motion::word_steps(t, from, WordMove::End, big, n)),
    decreases n,
{
    let f = finishes(t, big);
    let len = t.len() as int;
    let q = motion::word_step(t, from, WordMove::End, big);
    lemma_word_end(t, from, big);
    let hit = f(q) && from < q && !exists|j: int| from < j < q && #[trigger] f(j);
    if hit {
        doing::lemma_tally_none(f, from + 1, q);
    } else {
        doing::lemma_tally_none(f, from + 1, len);
    }
    if n > 1 {
        lemma_word_ends_on(t, q, big, n - 1);
        let p = motion::word_steps(t, q, WordMove::End, big, n - 1);
        if hit {
            let far = if f(p) && q < p && doing::tally(f, q + 1, p) == n - 2 {
                p
            } else {
                len
            };
            if q < far {
                doing::lemma_tally_at(f, from + 1, q, far);
            }
        } else if f(p) && q < p {
            text::lemma_ends(t);
            lemma_before(t, len);
            assert(text::bound(t, p));
        }
    } else {
        reveal_with_fuel(motion::word_steps, 2);
    }
}

/// Where a word motion lands.
proof fn lemma_moved(
    s: EditorState,
    key: Key,
    motion: Motion<Seq<char>>,
    kind: WordMove,
    big: bool,
    count: Option<usize>,
)
    requires
        doing::completes(s, key, Command::Move(motion), count),
        motion == match kind {
            WordMove::Forward => Motion::<Seq<char>>::WordForward { big },
            WordMove::Backward => Motion::<Seq<char>>::WordBackward { big },
            WordMove::End => Motion::<Seq<char>>::WordEnd { big },
        },
    ensures
        doing::after(s, key).text == s.text,
        doing::after(s, key).cursor == grapheme::clamped(
            s.text,
            motion::word_steps(s.text, s.cursor, kind, big, doing::times(count)),
            doing::resting(s.mode),
        ),
{
    doing::lemma_done(s, key, Command::Move(motion), count);
    reveal(Turn::acted);
    reveal(Turn::moved);
    reveal(motion::aimed);
}

/// `w` and `W` go to the beginning of the word that the count says, counted from the
/// next one on.
pub proof fn w_goes_to_the_beginning_of_a_word(
    s: EditorState,
    key: Key,
    big: bool,
    count: Option<usize>,
) -> (p: int)
    requires
        s.wf(),
        doing::times(count) >= 1,
        doing::completes(s, key, Command::Move(Motion::WordForward { big }), count),
    ensures
        words_on(s.text, s.cursor, big, doing::times(count), p),
        doing::after(s, key).cursor == grapheme::clamped(s.text, p, doing::resting(s.mode)),
        doing::after(s, key).text == s.text,
{
    lemma_moved(s, key, Motion::WordForward { big }, WordMove::Forward, big, count);
    lemma_words_on(s.text, s.cursor, big, doing::times(count));
    motion::word_steps(s.text, s.cursor, WordMove::Forward, big, doing::times(count))
}

/// `b` and `B` go back to the beginning of the word that the count says, counted from
/// the one at or before the cursor on.
pub proof fn b_goes_back_to_the_beginning_of_a_word(
    s: EditorState,
    key: Key,
    big: bool,
    count: Option<usize>,
) -> (p: int)
    requires
        s.wf(),
        doing::times(count) >= 1,
        doing::completes(s, key, Command::Move(Motion::WordBackward { big }), count),
    ensures
        words_back(s.text, s.cursor, big, doing::times(count), p),
        doing::after(s, key).cursor == grapheme::clamped(s.text, p, doing::resting(s.mode)),
        doing::after(s, key).text == s.text,
{
    lemma_moved(s, key, Motion::WordBackward { big }, WordMove::Backward, big, count);
    lemma_words_back(s.text, s.cursor, big, doing::times(count));
    motion::word_steps(s.text, s.cursor, WordMove::Backward, big, doing::times(count))
}

/// `e` and `E` go to the last character of the word that the count says.
pub proof fn e_goes_to_the_end_of_a_word(
    s: EditorState,
    key: Key,
    big: bool,
    count: Option<usize>,
) -> (p: int)
    requires
        s.wf(),
        doing::times(count) >= 1,
        doing::completes(s, key, Command::Move(Motion::WordEnd { big }), count),
    ensures
        word_ends_on(s.text, s.cursor, big, doing::times(count), p),
        doing::after(s, key).cursor == grapheme::clamped(s.text, p, doing::resting(s.mode)),
        doing::after(s, key).text == s.text,
{
    lemma_moved(s, key, Motion::WordEnd { big }, WordMove::End, big, count);
    lemma_word_ends_on(s.text, s.cursor, big, doing::times(count));
    motion::word_steps(s.text, s.cursor, WordMove::End, big, doing::times(count))
}

} // verus!
