//! Edits that need more than a span.

use core::ops::Range;
use vstd::prelude::*;
use vstd::utf8::*;

use crate::buffer;
use crate::command::{Mode, Motion, Operator};
use crate::editor::Editor;
use crate::effect::Effect;
use crate::grapheme;
use crate::grapheme::Bound;
use crate::motion;
use crate::motion::Span;
use crate::recase;
use crate::scan;
use crate::state;
use crate::state::Turn;
use crate::strings;
use crate::text;

verus! {

/// The length of repeated bytes.
proof fn lemma_copies_len(s: Seq<u8>, n: int)
    requires
        0 <= n,
    ensures
        state::copies(s, n).len() == s.len() * n,
    decreases n,
{
    if n > 0 {
        lemma_copies_len(s, n - 1);
        assert(s.len() * n == s.len() * (n - 1) + s.len()) by (nonlinear_arith);
    } else {
        assert(s.len() * n == 0) by (nonlinear_arith)
            requires
                n == 0,
        ;
    }
}

/// Repeating bytes at least once keeps the last of them last.
proof fn lemma_copies_last(s: Seq<u8>, n: int)
    requires
        s.len() > 0,
        n > 0,
    ensures
        state::copies(s, n).len() > 0,
        state::copies(s, n).last() == s.last(),
{
    lemma_copies_len(s, n - 1);
}

/// Repeated text is text.
proof fn lemma_copies_valid(s: Seq<u8>, n: int)
    requires
        valid_utf8(s),
    ensures
        valid_utf8(state::copies(s, n)),
    decreases n,
{
    if n > 0 {
        lemma_copies_valid(s, n - 1);
        valid_utf8_concat(state::copies(s, n - 1), s);
    } else {
        encode_utf8_valid_utf8(Seq::<char>::empty());
        assert(encode_utf8(Seq::<char>::empty()) =~= Seq::<u8>::empty());
    }
}

/// `n` copies of `s`.
fn repeat(s: &str, n: usize) -> (r: String)
    ensures
        encode_utf8(r@) == state::copies(encode_utf8(s@), n as int),
{
    let mut out = String::new();
    let mut i: usize = 0;
    proof {
        assert(encode_utf8(out@) =~= Seq::<u8>::empty());
    }
    while i < n
        invariant
            i <= n,
            encode_utf8(out@) == state::copies(encode_utf8(s@), i as int),
        decreases n - i,
    {
        proof {
            text::lemma_encode_append(out@, s@);
        }
        out.push_str(s);
        i += 1;
    }
    out
}

/// A string of one character.
fn one_char(ch: char) -> (r: String)
    ensures
        r@ == seq![ch],
        encode_utf8(r@) == state::char_bytes(ch),
{
    let mut out = String::new();
    out.push(ch);
    assert(out@ =~= seq![ch]);
    out
}

/// What the literals of one space and of one line feed hold.
proof fn lemma_literals()
    ensures
        encode_utf8(" "@) == seq![32u8],
        encode_utf8("\n"@) == seq![10u8],
        encode_utf8(""@) == Seq::<u8>::empty(),
{
    reveal_strlit(" ");
    reveal_strlit("\n");
    assert(" "@ =~= seq![' ']);
    assert("\n"@ =~= seq!['\n']);
    text::lemma_ascii_bytes(' ');
    text::lemma_ascii_bytes('\n');
    buffer::lemma_empty_literal();
}

/// The size of `repeat` pieces of `unit` bytes, where they fit beside `rest` others.
fn fitting(unit: usize, repeat: usize, rest: usize) -> (r: Option<usize>)
    requires
        rest <= buffer::MAX_LEN,
    ensures
        match r {
            Some(size) => size == unit * repeat && rest + size <= buffer::MAX_LEN,
            None => rest + unit * repeat > buffer::MAX_LEN,
        },
{
    match unit.checked_mul(repeat) {
        Some(size) => {
            if size <= buffer::MAX_LEN - rest {
                Some(size)
            } else {
                None
            }
        },
        None => None,
    }
}

/// The bytes that putting `register` `repeat` times as whole rows inserts. Where a
/// break has to be opened first, it takes the place of the final one.
spec fn row_block(register: Seq<u8>, repeat: int, break_first: bool) -> Seq<u8> {
    let rows = state::newline_ended(state::copies(register, repeat));
    if break_first {
        seq![10u8] + rows.drop_last()
    } else {
        rows
    }
}

/// What putting `register` `repeat` times as whole rows inserts, where it fits
/// beside `len` other bytes.
fn rows_to_put(register: &str, repeat: usize, break_first: bool, len: usize) -> (r: Option<String>)
    requires
        repeat >= 1,
        encode_utf8(register@).len() > 0,
        len <= buffer::MAX_LEN,
    ensures
        match r {
            Some(new) => encode_utf8(new@) == row_block(
                encode_utf8(register@),
                repeat as int,
                break_first,
            ) && len + encode_utf8(new@).len() <= buffer::MAX_LEN && encode_utf8(new@).len() > 0,
            None => len + row_block(encode_utf8(register@), repeat as int, break_first).len()
                > buffer::MAX_LEN,
        },
{
    let ghost reg = encode_utf8(register@);
    proof {
        lemma_copies_len(reg, repeat as int);
        lemma_copies_last(reg, repeat as int);
    }
    let unit: usize = strings::byte_len(register);
    let ended: bool = register.as_bytes()[unit - 1] == 10u8;
    let size: usize = match fitting(unit, repeat, len) {
        Some(size) => size,
        None => {
            return None;
        },
    };
    if !ended && len + size == buffer::MAX_LEN {
        return None;
    }
    let mut text: String = self::repeat(register, repeat);
    // Ensure the pasted block is newline-terminated so rows stay whole.
    if !ended {
        proof {
            text::lemma_push_ascii(text@, '\n');
        }
        text.push('\n');
    }
    if break_first {
        Some(break_before(text.as_str()))
    } else {
        Some(text)
    }
}

impl Editor {
    /// `x` / `X`.
    pub(crate) fn delete_char(&mut self, before: bool, repeat: usize, effects: &mut Vec<Effect>)
        requires
            old(self).sound(),
            text::bound(old(self)@.text, old(self)@.cursor),
        ensures
            final(self).sound(),
            final(self).turn(final(effects)@) == old(self).turn(old(effects)@).char_deleted(
                before,
                repeat,
            ),
            state::keeps(old(self).turn(old(effects)@), final(self).turn(final(effects)@)),
            final(self)@.spare() == old(self)@.spare(),
            text::bound(final(self)@.text, final(self)@.cursor),
            old(self)@.legal() ==> final(self)@.legal(),
    {
        proof {
            reveal(Turn::char_deleted);
            buffer::lemma_empty_literal();
        }
        let ghost begin = self.turn(effects@);
        let (start, end): (usize, usize) = if before {
            (self.step(self.cursor, Motion::Left, repeat, Bound::OnChar), self.cursor)
        } else {
            (self.cursor, self.step(self.cursor, Motion::Right, repeat, Bound::PastEnd))
        };
        if start >= end {
            self.bell(effects);
            return;
        }
        self.yank(&Span::Chars(start..end));
        let ghost filled = self.turn(effects@);
        self.edit(start..end, "", effects);
        let ghost edited = self.turn(effects@);
        self.place_cursor(start);
        proof {
            state::lemma_still(begin, filled);
            state::lemma_keeps_then(begin, filled, edited);
            state::lemma_still(edited, self.turn(effects@));
            state::lemma_keeps_then(begin, edited, self.turn(effects@));
        }
    }

    /// `r{char}`.
    pub(crate) fn replace_char(&mut self, ch: char, repeat: usize, effects: &mut Vec<Effect>)
        requires
            old(self).sound(),
            text::bound(old(self)@.text, old(self)@.cursor),
            repeat >= 1,
        ensures
            final(self).sound(),
            final(self).turn(final(effects)@) == old(self).turn(old(effects)@).char_replaced(
                ch,
                repeat,
            ),
            state::keeps(old(self).turn(old(effects)@), final(self).turn(final(effects)@)),
            final(self)@.spare() == old(self)@.spare(),
            text::bound(final(self)@.text, final(self)@.cursor),
    {
        proof {
            reveal(Turn::char_replaced);
        }
        let end: usize = self.step(self.cursor, Motion::Right, repeat, Bound::PastEnd);
        if end <= self.cursor {
            self.bell(effects);
            return;
        }
        let one: String = one_char(ch);
        let ghost new = state::copies(state::char_bytes(ch), repeat as int);
        let rest: usize = self.buffer().len_bytes() - (end - self.cursor);
        proof {
            lemma_copies_len(state::char_bytes(ch), repeat as int);
            encode_utf8_valid_utf8(one@);
            lemma_copies_valid(state::char_bytes(ch), repeat as int);
            text::lemma_splice_ends(self@.text, self@.cursor, end as int, new);
        }
        if fitting(strings::byte_len(one.as_str()), repeat, rest).is_none() {
            self.bell(effects);
            return;
        }
        let text: String = self::repeat(one.as_str(), repeat);
        self.edit(self.cursor..end, text.as_str(), effects);
    }

    /// `~`.
    pub(crate) fn swap_case(&mut self, repeat: usize, effects: &mut Vec<Effect>)
        requires
            old(self).sound(),
            text::bound(old(self)@.text, old(self)@.cursor),
        ensures
            final(self).sound(),
            final(self).turn(final(effects)@) == old(self).turn(old(effects)@).case_swapped(
                repeat,
            ),
            state::keeps(old(self).turn(old(effects)@), final(self).turn(final(effects)@)),
            final(self)@.spare() == old(self)@.spare(),
            text::bound(final(self)@.text, final(self)@.cursor),
            old(self)@.legal() ==> final(self)@.legal(),
    {
        proof {
            reveal(Turn::case_swapped);
        }
        let ghost begin = self.turn(effects@);
        let end: usize = self.step(self.cursor, Motion::Right, repeat, Bound::PastEnd);
        if end <= self.cursor {
            self.bell(effects);
            return;
        }
        let text: String = self.buffer().text_in(self.cursor..end);
        proof {
            encode_utf8_decode_utf8(text@);
        }
        let swapped: String = recase::recase(text.as_str(), Operator::SwapCase);
        self.edit(self.cursor..end, swapped.as_str(), effects);
        let ghost edited = self.turn(effects@);
        let column: usize = self.sticky;
        self.place_cursor(end);
        self.sticky = column;
        proof {
            state::lemma_still(edited, self.turn(effects@));
            state::lemma_keeps_then(begin, edited, self.turn(effects@));
        }
    }

    /// Join the next row to the cursor's: a single space replaces the newline and
    /// the next row's indent.
    fn join_row(&mut self, row: usize, effects: &mut Vec<Effect>)
        requires
            old(self).sound(),
            row + 1 < text::rows(old(self)@.text),
        ensures
            final(self).sound(),
            final(self).turn(final(effects)@) == old(self).turn(old(effects)@).row_joined(
                row as int,
            ),
            state::keeps(old(self).turn(old(effects)@), final(self).turn(final(effects)@)),
            final(self)@.spare() == old(self)@.spare(),
            text::bound(final(self)@.text, final(self)@.cursor),
    {
        let ghost t = self@.text;
        let ghost begin = self.turn(effects@);
        proof {
            reveal(Turn::row_joined);
            lemma_literals();
            text::lemma_rows(t, row as int);
            text::lemma_rows(t, row + 1);
        }
        let content: Range<usize> = self.buffer().row_content_range(row);
        let end: usize = content.end;
        let next: Range<usize> = self.buffer().row_range(row + 1);
        let past: usize = scan::past_space(self.buffer(), next.start, next.end);
        let separator: &str = if past == next.end || end == content.start {
            ""
        } else {
            " "
        };
        proof {
            encode_utf8_valid_utf8(separator@);
            text::lemma_splice_ends(t, end as int, past as int, encode_utf8(separator@));
        }
        self.edit(end..past, separator, effects);
        let ghost edited = self.turn(effects@);
        self.cursor = end;
        proof {
            state::lemma_still(edited, self.turn(effects@));
            state::lemma_keeps_then(begin, edited, self.turn(effects@));
        }
    }

    /// `J`: `times` rows joined to the cursor's.
    pub(crate) fn join_rows(&mut self, times: usize, effects: &mut Vec<Effect>)
        requires
            old(self).sound(),
            text::bound(old(self)@.text, old(self)@.cursor),
        ensures
            final(self).sound(),
            final(self).turn(final(effects)@) == old(self).turn(old(effects)@).rows_joined(
                times as int,
            ),
            state::keeps(old(self).turn(old(effects)@), final(self).turn(final(effects)@)),
            final(self)@.spare() == old(self)@.spare(),
            text::bound(final(self)@.text, final(self)@.cursor),
    {
        let ghost begin = self.turn(effects@);
        proof {
            state::lemma_still(begin, begin);
        }
        let mut left: usize = times;
        while left > 0
            invariant
                left <= times,
                begin == old(self).turn(old(effects)@),
                self.sound(),
                text::bound(self@.text, self@.cursor),
                begin.rows_joined(times as int) == self.turn(effects@).rows_joined(left as int),
                state::keeps(begin, self.turn(effects@)),
                self@.spare() == begin.state.spare(),
            decreases left,
        {
            let ghost middle = self.turn(effects@);
            let row: usize = self.buffer().byte_to_point(self.cursor).row;
            if row >= self.buffer().len_rows() - 1 {
                self.bell(effects);
                proof {
                    state::lemma_keeps_then(begin, middle, self.turn(effects@));
                }
                return;
            }
            self.join_row(row, effects);
            proof {
                state::lemma_keeps_then(begin, middle, self.turn(effects@));
            }
            left -= 1;
        }
        let ghost joined = self.turn(effects@);
        self.align();
        proof {
            state::lemma_still(joined, self.turn(effects@));
            state::lemma_keeps_then(begin, joined, self.turn(effects@));
        }
    }

    /// Put a linewise register above or below the cursor's row.
    fn put_rows(&mut self, before: bool, repeat: usize, effects: &mut Vec<Effect>)
        requires
            old(self).sound(),
            text::bound(old(self)@.text, old(self)@.cursor),
            repeat >= 1,
            old(self)@.register.text.len() > 0,
            old(self)@.register.linewise,
        ensures
            final(self).sound(),
            final(self).turn(final(effects)@) == old(self).turn(old(effects)@).put(
                before,
                repeat,
            ),
            state::keeps(old(self).turn(old(effects)@), final(self).turn(final(effects)@)),
            final(self)@.spare() == old(self)@.spare(),
            text::bound(final(self)@.text, final(self)@.cursor),
            old(self)@.legal() ==> final(self)@.legal(),
    {
        let ghost begin = self.turn(effects@);
        let ghost t = self@.text;
        proof {
            reveal(Turn::put);
        }
        let row: usize = self.buffer().byte_to_point(self.cursor).row;
        let range: Range<usize> = self.buffer().row_range(row);
        let len: usize = self.buffer().len_bytes();
        // A file that does not end in a newline has no row break to paste after, so
        // putting below its final row has to supply one, and give up its own
        // trailing newline in exchange, so the file ends as it began.
        let break_first: bool = !before && range.end == len && len > 0 && self.buffer().byte(
            len - 1,
        ) != 10u8;
        let at: usize = if before {
            range.start
        } else {
            range.end
        };
        let new: String = match rows_to_put(
            self.register.text.as_str(),
            repeat,
            break_first,
            len,
        ) {
            Some(new) => new,
            None => {
                self.bell(effects);
                return;
            },
        };
        proof {
            encode_utf8_valid_utf8(new@);
            text::lemma_splice_ends(t, at as int, at as int, encode_utf8(new@));
        }
        self.edit(at..at, new.as_str(), effects);
        let ghost edited = self.turn(effects@);
        // The pasted rows start after the break this had to open.
        let home: usize = if break_first {
            at + 1
        } else {
            at
        };
        self.cursor = self.step(home, Motion::FirstNonBlank, 1, Bound::OnChar);
        self.align();
        proof {
            state::lemma_still(edited, self.turn(effects@));
            state::lemma_keeps_then(begin, edited, self.turn(effects@));
        }
    }

    /// Put a characterwise register before or after the cursor.
    fn put_chars(&mut self, before: bool, repeat: usize, effects: &mut Vec<Effect>)
        requires
            old(self).sound(),
            text::bound(old(self)@.text, old(self)@.cursor),
            repeat >= 1,
            old(self)@.register.text.len() > 0,
            !old(self)@.register.linewise,
        ensures
            final(self).sound(),
            final(self).turn(final(effects)@) == old(self).turn(old(effects)@).put(
                before,
                repeat,
            ),
            state::keeps(old(self).turn(old(effects)@), final(self).turn(final(effects)@)),
            final(self)@.spare() == old(self)@.spare(),
            text::bound(final(self)@.text, final(self)@.cursor),
            old(self)@.legal() ==> final(self)@.legal(),
    {
        let ghost begin = self.turn(effects@);
        let ghost reg = self@.register.text;
        proof {
            reveal(Turn::put);
            encode_utf8_valid_utf8(self.register.text@);
            lemma_copies_len(reg, repeat as int);
            lemma_copies_last(reg, repeat as int);
            lemma_copies_valid(reg, repeat as int);
        }
        let at: usize = if before {
            self.cursor
        } else {
            self.step(self.cursor, Motion::Right, 1, Bound::PastEnd)
        };
        let len: usize = self.buffer().len_bytes();
        let unit: usize = strings::byte_len(self.register.text.as_str());
        let size: usize = match fitting(unit, repeat, len) {
            Some(size) => size,
            None => {
                self.bell(effects);
                return;
            },
        };
        let text: String = self::repeat(self.register.text.as_str(), repeat);
        self.edit(at..at, text.as_str(), effects);
        let ghost edited = self.turn(effects@);
        self.cursor = grapheme::clamp(self.buffer(), at + size - 1, Bound::OnChar);
        proof {
            grapheme::lemma_rests(self@.text, self@.cursor, Bound::OnChar);
        }
        self.align();
        proof {
            state::lemma_still(edited, self.turn(effects@));
            state::lemma_keeps_then(begin, edited, self.turn(effects@));
        }
    }

    /// `p` / `P`.
    pub(crate) fn put(&mut self, before: bool, repeat: usize, effects: &mut Vec<Effect>)
        requires
            old(self).sound(),
            text::bound(old(self)@.text, old(self)@.cursor),
            repeat >= 1,
        ensures
            final(self).sound(),
            final(self).turn(final(effects)@) == old(self).turn(old(effects)@).put(
                before,
                repeat,
            ),
            state::keeps(old(self).turn(old(effects)@), final(self).turn(final(effects)@)),
            final(self)@.spare() == old(self)@.spare(),
            text::bound(final(self)@.text, final(self)@.cursor),
            old(self)@.legal() ==> final(self)@.legal(),
    {
        if strings::byte_len(self.register.text.as_str()) == 0 {
            proof {
                reveal(Turn::put);
            }
            self.bell(effects);
        } else if self.register.linewise {
            self.put_rows(before, repeat, effects);
        } else {
            self.put_chars(before, repeat, effects);
        }
    }

    // -- insert mode -----------------------------------------------------

    /// One character typed: over the one at the cursor in replace mode.
    pub(crate) fn type_char(&mut self, ch: char, effects: &mut Vec<Effect>)
        requires
            old(self).sound(),
            text::bound(old(self)@.text, old(self)@.cursor),
        ensures
            final(self).sound(),
            final(self).turn(final(effects)@) == old(self).turn(old(effects)@).typed(ch),
            state::keeps(old(self).turn(old(effects)@), final(self).turn(final(effects)@)),
            final(self)@.spare() == old(self)@.spare(),
            text::bound(final(self)@.text, final(self)@.cursor),
    {
        proof {
            reveal(Turn::typed);
        }
        let ghost begin = self.turn(effects@);
        let text: String = one_char(ch);
        let end: usize = if self.mode == Mode::Replace {
            let past: usize = self.step(self.cursor, Motion::Right, 1, Bound::PastEnd);
            if past < self.cursor {
                self.cursor
            } else {
                past
            }
        } else {
            self.cursor
        };
        let size: usize = strings::byte_len(text.as_str());
        let rest: usize = self.buffer().len_bytes() - (end - self.cursor);
        proof {
            encode_utf8_valid_utf8(text@);
            text::lemma_encode_one(ch);
            text::lemma_char_width(ch);
            text::lemma_splice_ends(self@.text, self@.cursor, end as int, encode_utf8(text@));
        }
        let room: bool = rest <= buffer::MAX_LEN - size;
        self.edit(self.cursor..end, text.as_str(), effects);
        let ghost edited = self.turn(effects@);
        if room {
            self.cursor = self.cursor + size;
            self.align();
        }
        proof {
            state::lemma_still(edited, self.turn(effects@));
            state::lemma_keeps_then(begin, edited, self.turn(effects@));
        }
    }

    /// `<CR>` typed.
    pub(crate) fn type_newline(&mut self, effects: &mut Vec<Effect>)
        requires
            old(self).sound(),
            text::bound(old(self)@.text, old(self)@.cursor),
        ensures
            final(self).sound(),
            final(self).turn(final(effects)@) == old(self).turn(old(effects)@).newline_typed(),
            state::keeps(old(self).turn(old(effects)@), final(self).turn(final(effects)@)),
            final(self)@.spare() == old(self)@.spare(),
            text::bound(final(self)@.text, final(self)@.cursor),
            old(self)@.legal() ==> final(self)@.legal(),
    {
        proof {
            reveal(Turn::newline_typed);
            lemma_literals();
            encode_utf8_valid_utf8("\n"@);
            text::lemma_splice_ends(self@.text, self@.cursor, self@.cursor, seq![10u8]);
        }
        let ghost begin = self.turn(effects@);
        let room: bool = self.buffer().len_bytes() < buffer::MAX_LEN;
        self.edit(self.cursor..self.cursor, "\n", effects);
        let ghost edited = self.turn(effects@);
        if room {
            proof {
                let t = self@.text;
                assert(t[self@.cursor] == 10u8);
                text::lemma_row_starts_at(t, self@.cursor + 1);
                text::lemma_row_of(t, self@.cursor + 1);
                grapheme::lemma_row_ends_rest(t, text::row_of(t, self@.cursor + 1));
            }
            self.cursor = grapheme::clamp(self.buffer(), self.cursor + 1, Bound::PastEnd);
            self.sticky = 0;
        }
        proof {
            state::lemma_still(edited, self.turn(effects@));
            state::lemma_keeps_then(begin, edited, self.turn(effects@));
        }
    }

    /// Delete the text from `start` to the cursor.
    pub(crate) fn delete_back_to(&mut self, start: usize, effects: &mut Vec<Effect>)
        requires
            old(self).sound(),
            text::bound(old(self)@.text, old(self)@.cursor),
            text::bound(old(self)@.text, start as int),
        ensures
            final(self).sound(),
            final(self).turn(final(effects)@) == old(self).turn(old(effects)@).deleted_back_to(
                start as int,
            ),
            state::keeps(old(self).turn(old(effects)@), final(self).turn(final(effects)@)),
            final(self)@.spare() == old(self)@.spare(),
            text::bound(final(self)@.text, final(self)@.cursor),
    {
        proof {
            reveal(Turn::deleted_back_to);
            buffer::lemma_empty_literal();
            encode_utf8_valid_utf8(""@);
        }
        if start >= self.cursor {
            self.bell(effects);
            return;
        }
        proof {
            text::lemma_splice_ends(self@.text, start as int, self@.cursor, Seq::empty());
        }
        let ghost begin = self.turn(effects@);
        self.edit(start..self.cursor, "", effects);
        let ghost edited = self.turn(effects@);
        self.cursor = start;
        self.align();
        proof {
            state::lemma_still(edited, self.turn(effects@));
            state::lemma_keeps_then(begin, edited, self.turn(effects@));
        }
    }

    /// `<C-w>`.
    pub(crate) fn delete_word_back(&mut self, effects: &mut Vec<Effect>)
        requires
            old(self).sound(),
            text::bound(old(self)@.text, old(self)@.cursor),
        ensures
            final(self).sound(),
            final(self).turn(final(effects)@) == old(self).turn(
                old(effects)@,
            ).word_deleted_back(),
            state::keeps(old(self).turn(old(effects)@), final(self).turn(final(effects)@)),
            final(self)@.spare() == old(self)@.spare(),
            text::bound(final(self)@.text, final(self)@.cursor),
    {
        proof {
            reveal(Turn::word_deleted_back);
        }
        let landed: Option<usize> = motion::resolve(
            self.buffer(),
            self.cursor,
            Motion::WordBackward { big: false },
            None,
            self.sticky,
            None,
            None,
            self.viewport,
            Bound::PastEnd,
        );
        let start: usize = match landed {
            Some(start) => start,
            None => self.cursor,
        };
        self.delete_back_to(start, effects);
    }
}

/// `text` with its final line feed put at its front.
fn break_before(text: &str) -> (r: String)
    requires
        encode_utf8(text@).len() > 0,
        encode_utf8(text@).last() == 10u8,
    ensures
        encode_utf8(r@) == seq![10u8] + encode_utf8(text@).drop_last(),
{
    let chars: Vec<char> = strings::chars_of(text);
    let ghost bytes = encode_utf8(text@);
    let ghost n = bytes.len() as int;
    proof {
        encode_utf8_valid_utf8(text@);
        text::lemma_ascii(bytes, n - 1);
        text::lemma_ends(bytes);
        text::lemma_prev(bytes, n);
        encode_utf8_decode_utf8(text@);
        assert(bytes.subrange(0, n) =~= bytes);
        assert(text@.len() > 0) by {
            if text@.len() == 0 {
                assert(encode_utf8(text@).len() == 0);
            }
        }
        if text::prev(bytes, n) < n - 1 {
            assert(!text::bound(bytes, n - 1));
        }
        assert(text@.last() == '\n');
    }
    let mut out = String::new();
    out.push('\n');
    let mut i: usize = 0;
    while i + 1 < chars.len()
        invariant
            chars@ == text@,
            chars.len() > 0,
            i < chars.len(),
            out@ == seq!['\n'] + text@.take(i as int),
        decreases chars.len() - i,
    {
        out.push(chars[i]);
        i += 1;
        proof {
            assert(out@ =~= seq!['\n'] + text@.take(i as int));
        }
    }
    proof {
        let front = text@.take(i as int);
        assert(text@ =~= front.push('\n'));
        text::lemma_push_ascii(front, '\n');
        text::lemma_ascii_bytes('\n');
        text::lemma_encode_append(seq!['\n'], front);
        assert(bytes.drop_last() =~= encode_utf8(front));
    }
    out
}

} // verus!
