//! Delimiters around the cursor or the selection.

use vstd::prelude::*;
use vstd::utf8::*;

use crate::buffer;
use crate::command::TextObject;
use crate::editor::Editor;
use crate::effect::Effect;
use crate::key::Key;
use crate::motion;
use crate::motion::Span;
use crate::object;
use crate::state;
use crate::state::Turn;
use crate::strings;
use crate::text;

verus! {

/// The delimiters and padding convention selected by a surround key.
fn surround_pair(delimiter: char) -> (r: Option<(char, char, bool)>)
    ensures
        r == state::surround_pair(delimiter),
{
    match delimiter {
        '(' => Some(('(', ')', true)),
        '[' => Some(('[', ']', true)),
        '{' => Some(('{', '}', true)),
        '<' => Some(('<', '>', true)),
        ')' => Some(('(', ')', false)),
        ']' => Some(('[', ']', false)),
        '}' => Some(('{', '}', false)),
        '>' => Some(('<', '>', false)),
        '"' | '\'' | '`' => Some((delimiter, delimiter, false)),
        _ => None,
    }
}

/// A string of `first`, and of `second` where there is one.
fn short_text(first: char, second: Option<char>) -> (r: String)
    ensures
        r@ == match second {
            Some(c) => seq![first, c],
            None => seq![first],
        },
        valid_utf8(encode_utf8(r@)),
{
    let mut out = String::new();
    out.push(first);
    if let Some(c) = second {
        out.push(c);
        assert(out@ =~= seq![first, c]);
    } else {
        assert(out@ =~= seq![first]);
    }
    proof {
        encode_utf8_valid_utf8(out@);
    }
    out
}

/// The text that opens a pair, with a space of padding or without.
fn opening_text(open: char, padding: bool) -> (r: String)
    ensures
        encode_utf8(r@) == if padding {
            encode_utf8(seq![open, ' '])
        } else {
            encode_utf8(seq![open])
        },
{
    short_text(open, if padding {
        Some(' ')
    } else {
        None
    })
}

/// The text that closes a pair, with a space of padding or without.
fn closing_text(close: char, padding: bool) -> (r: String)
    ensures
        encode_utf8(r@) == if padding {
            encode_utf8(seq![' ', close])
        } else {
            encode_utf8(seq![close])
        },
{
    if padding {
        short_text(' ', Some(close))
    } else {
        short_text(close, None)
    }
}

/// What the offsets and widths of a pair of delimiters are known to be.
spec fn is_pair(t: Seq<u8>, offsets: (usize, usize, usize, usize)) -> bool {
    let (open, close, open_width, close_width) = offsets;
    &&& open + open_width <= close
    &&& close_width > 0
    &&& text::bound(t, open as int)
    &&& text::bound(t, open + open_width)
    &&& text::bound(t, close as int)
    &&& text::bound(t, close + close_width)
}

impl Editor {
    fn surround_offsets(&self, target: char) -> (r: Option<(usize, usize, usize, usize)>)
        requires
            self.sound(),
            text::bound(self@.text, self@.cursor),
        ensures
            match r {
                Some((a, b, c, d)) => self@.surround_offsets(target) == Some(
                    (a as int, b as int, c as int, d as int),
                ) && is_pair(self@.text, (a, b, c, d)),
                None => self@.surround_offsets(target) is None,
            },
    {
        let object: TextObject = match self.keymap.object(Key::char(target)) {
            None => {
                return None;
            },
            Some(object) => object,
        };
        let (open_width, close_width): (usize, usize) = match object {
            TextObject::Delimited { open, close } => (
                strings::len_utf8(open),
                strings::len_utf8(close),
            ),
            TextObject::Quoted(quote) => (strings::len_utf8(quote), strings::len_utf8(quote)),
            TextObject::Word { .. } | TextObject::Paragraph => {
                return None;
            },
        };
        match object::delimiters(self.buffer(), self.cursor, object) {
            Some((open, close)) => {
                proof {
                    text::lemma_next(self@.text, open as int);
                    text::lemma_next(self@.text, close as int);
                }
                Some((open, close, open_width, close_width))
            },
            None => None,
        }
    }

    fn surround_has_padding(&self, open: usize, close: usize, open_width: usize) -> (r: bool)
        requires
            self.sound(),
            open + open_width <= close,
            close < self@.text.len(),
        ensures
            r == self@.padded(open as int, close as int, open_width as int),
    {
        let inner_start: usize = open + open_width;
        // Remove one space from each edge only when both exist. Requiring two
        // distinct bytes avoids treating the sole payload of `( )` twice.
        inner_start < close.saturating_sub(1) && self.buffer().byte(inner_start) == 32u8
            && self.buffer().byte(close - 1) == 32u8
    }

    /// Replace the delimiters, along with a space of padding inside each where both
    /// have one.
    fn replace_delimiters(
        &mut self,
        offsets: (usize, usize, usize, usize),
        opening: &str,
        closing: &str,
        effects: &mut Vec<Effect>,
    )
        requires
            old(self).sound(),
            is_pair(old(self)@.text, offsets),
        ensures
            final(self).sound(),
            final(self).turn(final(effects)@) == old(self).turn(
                old(effects)@,
            ).delimiters_replaced(
                (
                    offsets.0 as int,
                    offsets.1 as int,
                    offsets.2 as int,
                    offsets.3 as int,
                ),
                encode_utf8(opening@),
                encode_utf8(closing@),
            ),
            state::keeps(old(self).turn(old(effects)@), final(self).turn(final(effects)@)),
            final(self)@.spare() == old(self)@.spare(),
            text::bound(final(self)@.text, final(self)@.cursor),
            final(self)@.legal(),
    {
        let (open, close, open_width, close_width): (usize, usize, usize, usize) = offsets;
        let ghost begin = self.turn(effects@);
        let ghost t = self@.text;
        let pad: usize = if self.surround_has_padding(open, close, open_width) {
            1
        } else {
            0
        };
        let from: usize = close - pad;
        let to: usize = close + close_width;
        let open_end: usize = open + open_width + pad;
        proof {
            reveal(Turn::delimiters_replaced);
            if pad == 1 {
                text::lemma_ascii(t, open + open_width);
                text::lemma_ascii(t, close - 1);
            }
            encode_utf8_valid_utf8(closing@);
            text::lemma_splice(t, from as int, to as int, encode_utf8(closing@));
        }
        // Offsets belong to the buffer before either edit. Editing the later delimiter first
        // keeps the opening edit from shifting the closing one.
        self.edit(from..to, closing, effects);
        let ghost one = self.turn(effects@);
        assert(text::bound(self@.text, open as int));
        assert(text::bound(self@.text, open_end as int));
        self.edit(open..open_end, opening, effects);
        let ghost two = self.turn(effects@);
        self.place_cursor(open);
        proof {
            state::lemma_keeps_then(begin, one, two);
            state::lemma_still(two, self.turn(effects@));
            state::lemma_keeps_then(begin, two, self.turn(effects@));
        }
    }

    pub(crate) fn change_surround(&mut self, from: char, to: char, effects: &mut Vec<Effect>)
        requires
            old(self).sound(),
            text::bound(old(self)@.text, old(self)@.cursor),
        ensures
            final(self).sound(),
            final(self).turn(final(effects)@) == old(self).turn(old(effects)@).surround_changed(
                from,
                to,
            ),
            state::keeps(old(self).turn(old(effects)@), final(self).turn(final(effects)@)),
            final(self)@.spare() == old(self)@.spare(),
            text::bound(final(self)@.text, final(self)@.cursor),
            old(self)@.legal() ==> final(self)@.legal(),
    {
        proof {
            reveal(Turn::surround_changed);
        }
        let pair: Option<(char, char, bool)> = surround_pair(to);
        let offsets: Option<(usize, usize, usize, usize)> = self.surround_offsets(from);
        if let Some((open, close, padding)) = pair {
            if let Some(offsets) = offsets {
                let opening: String = opening_text(open, padding);
                let closing: String = closing_text(close, padding);
                self.replace_delimiters(offsets, opening.as_str(), closing.as_str(), effects);
                return;
            }
        }
        self.bell(effects);
    }

    pub(crate) fn delete_surround(&mut self, target: char, effects: &mut Vec<Effect>)
        requires
            old(self).sound(),
            text::bound(old(self)@.text, old(self)@.cursor),
        ensures
            final(self).sound(),
            final(self).turn(final(effects)@) == old(self).turn(old(effects)@).surround_deleted(
                target,
            ),
            state::keeps(old(self).turn(old(effects)@), final(self).turn(final(effects)@)),
            final(self)@.spare() == old(self)@.spare(),
            text::bound(final(self)@.text, final(self)@.cursor),
            old(self)@.legal() ==> final(self)@.legal(),
    {
        proof {
            reveal(Turn::surround_deleted);
            buffer::lemma_empty_literal();
        }
        // Open and close target spellings deliberately behave alike. Padding is a
        // property of the existing pair, not of the key used to name it.
        if let Some(offsets) = self.surround_offsets(target) {
            self.replace_delimiters(offsets, "", "", effects);
            return;
        }
        self.bell(effects);
    }

    /// Put `closing` at `end` and `opening` at `start`, and leave visual mode.
    fn enclose(
        &mut self,
        start: usize,
        end: usize,
        opening: &str,
        closing: &str,
        effects: &mut Vec<Effect>,
    )
        requires
            old(self).sound(),
            old(self)@.mode is Visual,
            start <= end,
            text::bound(old(self)@.text, start as int),
            text::bound(old(self)@.text, end as int),
        ensures
            final(self).sound(),
            final(self).turn(final(effects)@) == ({
                let t = old(self).turn(old(effects)@).edited(
                    end as int,
                    end as int,
                    encode_utf8(closing@),
                ).edited(start as int, start as int, encode_utf8(opening@)).visual_left(false);
                t.to(t.state.placed(start as int))
            }),
            state::keeps(old(self).turn(old(effects)@), final(self).turn(final(effects)@)),
            final(self)@.spare() == old(self)@.spare(),
            text::bound(final(self)@.text, final(self)@.cursor),
            final(self)@.legal(),
    {
        let ghost begin = self.turn(effects@);
        proof {
            encode_utf8_valid_utf8(closing@);
            text::lemma_splice(self@.text, end as int, end as int, encode_utf8(closing@));
        }
        self.edit(end..end, closing, effects);
        let ghost one = self.turn(effects@);
        assert(text::bound(self@.text, start as int));
        self.edit(start..start, opening, effects);
        let ghost two = self.turn(effects@);
        self.leave_visual(false, effects);
        let ghost three = self.turn(effects@);
        self.place_cursor(start);
        proof {
            state::lemma_keeps_then(begin, one, two);
            state::lemma_keeps_then(begin, two, three);
            state::lemma_still(three, self.turn(effects@));
            state::lemma_keeps_then(begin, three, self.turn(effects@));
        }
    }

    pub(crate) fn surround_selection(&mut self, delimiter: char, effects: &mut Vec<Effect>)
        requires
            old(self).sound(),
            text::bound(old(self)@.text, old(self)@.cursor),
        ensures
            final(self).sound(),
            final(self).turn(final(effects)@) == old(self).turn(old(effects)@).surrounded(
                delimiter,
            ),
            state::keeps(old(self).turn(old(effects)@), final(self).turn(final(effects)@)),
            final(self)@.spare() == old(self)@.spare(),
            text::bound(final(self)@.text, final(self)@.cursor),
            old(self)@.legal() ==> final(self)@.legal(),
    {
        proof {
            reveal(Turn::surrounded);
        }
        let ghost begin = self.turn(effects@);
        let (open, close, padding): (char, char, bool) = match surround_pair(delimiter) {
            None => {
                self.bell(effects);
                return;
            },
            Some(pair) => pair,
        };
        let span: Span = match self.selected_span() {
            None => {
                self.bell(effects);
                return;
            },
            Some(span) => span,
        };
        self.remember_visual_selection();
        let ghost marked = self.turn(effects@);
        proof {
            motion::lemma_extent(span@, self@.text);
            state::lemma_still(begin, marked);
        }
        // A linewise selection puts its delimiters on rows of their own. Wrapping
        // the raw span instead would leave the closing delimiter prefixed to the
        // row *after* the selection, since a linewise span carries the trailing
        // newline. Padding is meaningless once each delimiter owns a row, so `S(`
        // and `S)` agree here.
        let range: core::ops::Range<usize> = span.content_range(self.buffer());
        if span.is_linewise() {
            let opening: String = short_text(open, Some('\n'));
            let closing: String = short_text('\n', Some(close));
            self.enclose(range.start, range.end, opening.as_str(), closing.as_str(), effects);
        } else {
            let opening: String = opening_text(open, padding);
            let closing: String = closing_text(close, padding);
            self.enclose(range.start, range.end, opening.as_str(), closing.as_str(), effects);
        }
        proof {
            state::lemma_keeps_then(begin, marked, self.turn(effects@));
        }
    }
}

} // verus!
