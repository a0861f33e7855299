//! Entering and leaving modes.

use core::ops::Range;
use vstd::prelude::*;
use vstd::utf8::*;

use crate::buffer;
use crate::command::{InsertAt, Mode, Motion, VisualKind};
use crate::editor::Editor;
use crate::effect::Effect;
use crate::grapheme;
use crate::grapheme::Bound;
use crate::state;
use crate::state::{EditorState, Turn};
use crate::text;

verus! {

impl Editor {
    // -- insert ----------------------------------------------------------

    /// Put the cursor on a new row that begins at `at`.
    pub(crate) fn open_row(&mut self, at: usize, cursor: usize, effects: &mut Vec<Effect>)
        requires
            old(self).sound(),
            text::bound(old(self)@.text, at as int),
            text::bound(old(self)@.text, old(self)@.cursor),
            cursor == at + 1 || (cursor == at && (at == 0 || old(self)@.text[at - 1] == 10u8)),
        ensures
            final(self).sound(),
            final(self).turn(final(effects)@) == ({
                let t = old(self).turn(old(effects)@).edited(at as int, at as int, seq![10u8]);
                if old(self)@.room(at as int, at as int, 1) {
                    t.to(EditorState { cursor: cursor as int, ..t.state })
                } else {
                    t
                }
            }),
            state::keeps(old(self).turn(old(effects)@), final(self).turn(final(effects)@)),
            final(self)@.spare() == old(self)@.spare(),
            text::bound(final(self)@.text, final(self)@.cursor),
            old(self)@.legal() ==> final(self)@.legal(),
    {
        proof {
            lemma_newline_literal();
            encode_utf8_valid_utf8("\n"@);
            text::lemma_splice_ends(self@.text, at as int, at as int, seq![10u8]);
        }
        let ghost begin = self.turn(effects@);
        let room: bool = self.buffer().len_bytes() < buffer::MAX_LEN;
        self.edit(at..at, "\n", effects);
        let ghost middle = self.turn(effects@);
        if room {
            proof {
                let t = self@.text;
                if cursor == at + 1 {
                    assert(t[at as int] == 10u8);
                }
                text::lemma_row_starts_at(t, cursor as int);
                text::lemma_row_of(t, cursor as int);
                grapheme::lemma_row_ends_rest(t, text::row_of(t, cursor as int));
            }
            self.cursor = grapheme::clamp(self.buffer(), cursor, Bound::PastEnd);
        }
        proof {
            state::lemma_still(middle, self.turn(effects@));
            state::lemma_keeps_then(begin, middle, self.turn(effects@));
        }
    }

    /// Put the cursor where insert mode begins.
    pub(crate) fn begin_insert(&mut self, at: InsertAt, effects: &mut Vec<Effect>)
        requires
            old(self).sound(),
            text::bound(old(self)@.text, old(self)@.cursor),
        ensures
            final(self).sound(),
            final(self).turn(final(effects)@) == old(self).turn(old(effects)@).insert_begun(at),
            state::keeps(old(self).turn(old(effects)@), final(self).turn(final(effects)@)),
            final(self)@.spare() == old(self)@.spare(),
            text::bound(final(self)@.text, final(self)@.cursor),
            old(self)@.legal() ==> final(self)@.legal(),
    {
        proof {
            reveal(Turn::insert_begun);
        }
        let row: usize = self.buffer().byte_to_point(self.cursor).row;
        match at {
            InsertAt::Cursor => {},
            InsertAt::After => {
                self.cursor = self.step(self.cursor, Motion::Right, 1, Bound::PastEnd);
            },
            InsertAt::FirstNonBlank => {
                self.cursor = self.step(self.cursor, Motion::FirstNonBlank, 1, Bound::OnChar);
            },
            InsertAt::EndOfRow => {
                let end: usize = self.buffer().row_content_range(row).end;
                proof {
                    text::lemma_rows(self@.text, row as int);
                    text::lemma_row_bytes(self@.text, row as int, end as int);
                    grapheme::lemma_row_ends_rest(self@.text, row as int);
                }
                self.cursor = grapheme::clamp(self.buffer(), end, Bound::PastEnd);
            },
            InsertAt::RowBelow => {
                let end: usize = self.buffer().row_content_range(row).end;
                self.open_row(end, end + 1, effects);
                return;
            },
            InsertAt::RowAbove => {
                let start: usize = self.buffer().row_range(row).start;
                proof {
                    text::lemma_row_start(self@.text, row as int);
                }
                self.open_row(start, start, effects);
                return;
            },
        }
        proof {
            state::lemma_still(old(self).turn(effects@), self.turn(effects@));
        }
    }

    pub(crate) fn enter_insert(&mut self, at: InsertAt, effects: &mut Vec<Effect>)
        requires
            old(self).sound(),
            old(self)@.spare() == 1,
            text::bound(old(self)@.text, old(self)@.cursor),
        ensures
            final(self).sound(),
            final(self).turn(final(effects)@) == old(self).turn(old(effects)@).insert_entered(at),
            state::keeps(old(self).turn(old(effects)@), final(self).turn(final(effects)@)),
            final(self)@.spare() == old(self)@.spare(),
            text::bound(final(self)@.text, final(self)@.cursor),
            old(self)@.legal() ==> final(self)@.legal(),
    {
        proof {
            reveal(Turn::insert_entered);
        }
        let ghost begin = self.turn(effects@);
        self.open_insert_group();
        let ghost opened = self.turn(effects@);
        self.begin_insert(at, effects);
        let ghost begun = self.turn(effects@);
        self.set_mode(Mode::Insert, effects);
        let ghost switched = self.turn(effects@);
        self.align();
        proof {
            state::lemma_keeps_then(begin, opened, begun);
            state::lemma_keeps_then(begin, begun, switched);
            state::lemma_still(switched, self.turn(effects@));
            state::lemma_keeps_then(begin, switched, self.turn(effects@));
        }
    }

    pub(crate) fn enter_replace(&mut self, effects: &mut Vec<Effect>)
        requires
            old(self).sound(),
            old(self)@.spare() == 1,
            text::bound(old(self)@.text, old(self)@.cursor),
        ensures
            final(self).sound(),
            final(self).turn(final(effects)@) == old(self).turn(
                old(effects)@,
            ).replace_entered(),
            state::keeps(old(self).turn(old(effects)@), final(self).turn(final(effects)@)),
            final(self)@.spare() == old(self)@.spare(),
            text::bound(final(self)@.text, final(self)@.cursor),
            old(self)@.legal() ==> final(self)@.legal(),
    {
        let ghost begin = self.turn(effects@);
        self.open_insert_group();
        let ghost middle = self.turn(effects@);
        self.set_mode(Mode::Replace, effects);
        proof {
            state::lemma_keeps_then(begin, middle, self.turn(effects@));
        }
    }

    pub(crate) fn enter_visual(&mut self, kind: VisualKind, effects: &mut Vec<Effect>)
        requires
            old(self).sound(),
            text::bound(old(self)@.text, old(self)@.cursor),
        ensures
            final(self).sound(),
            final(self).turn(final(effects)@) == old(self).turn(old(effects)@).visual_entered(
                kind,
            ),
            state::keeps(old(self).turn(old(effects)@), final(self).turn(final(effects)@)),
            final(self)@.spare() == old(self)@.spare(),
            text::bound(final(self)@.text, final(self)@.cursor),
            final(self)@.legal(),
    {
        proof {
            reveal(Turn::visual_entered);
        }
        if self.mode == Mode::Visual(kind) {
            self.leave_visual(true, effects);
        } else {
            let ghost begin = self.turn(effects@);
            self.anchor = Some(self.cursor);
            let ghost middle = self.turn(effects@);
            self.set_mode(Mode::Visual(kind), effects);
            proof {
                state::lemma_still(begin, middle);
                state::lemma_keeps_then(begin, middle, self.turn(effects@));
            }
        }
    }

    pub(crate) fn enter_normal(&mut self, effects: &mut Vec<Effect>)
        requires
            old(self).sound(),
            old(self)@.spare() == 1,
            text::bound(old(self)@.text, old(self)@.cursor),
        ensures
            final(self).sound(),
            final(self).turn(final(effects)@) == old(self).turn(old(effects)@).normal_entered(),
            state::keeps(old(self).turn(old(effects)@), final(self).turn(final(effects)@)),
            final(self)@.spare() == old(self)@.spare(),
            text::bound(final(self)@.text, final(self)@.cursor),
            old(self)@.mode != Mode::Normal || old(self)@.legal() ==> final(self)@.legal(),
    {
        proof {
            reveal(Turn::normal_entered);
        }
        let ghost begin = self.turn(effects@);
        let leaving_insert: bool = matches!(self.mode, Mode::Insert | Mode::Replace);
        self.close_insert_group();
        let ghost closed = self.turn(effects@);
        if leaving_insert {
            // vi's insert cursor sits *between* characters, so leaving puts it on
            // the character to the left. This has to happen before the mode switch:
            // `set_mode` clamps to `OnChar`, and doing both would move the cursor
            // twice.
            self.cursor = self.step(self.cursor, Motion::Left, 1, Bound::PastEnd);
            self.set_mark('^', self.cursor);
        }
        let ghost back = self.turn(effects@);
        proof {
            state::lemma_still(closed, back);
            state::lemma_keeps_then(begin, closed, back);
        }
        if self.mode.is_visual() {
            self.leave_visual(true, effects);
        } else {
            self.anchor = None;
            let ghost dropped = self.turn(effects@);
            self.set_mode(Mode::Normal, effects);
            proof {
                state::lemma_still(back, dropped);
                state::lemma_keeps_then(back, dropped, self.turn(effects@));
            }
        }
        let ghost left = self.turn(effects@);
        if leaving_insert {
            // The cursor moved, so the column `j`/`k` aim for has to follow it.
            // Insert advances the sticky column with every character typed; leaving
            // it stale here lands the next `j` one column to the right of where the
            // cursor visibly is.
            self.align();
        }
        proof {
            state::lemma_keeps_then(begin, back, left);
            state::lemma_still(left, self.turn(effects@));
            state::lemma_keeps_then(begin, left, self.turn(effects@));
        }
    }
}

/// The newline literal is one line feed.
proof fn lemma_newline_literal()
    ensures
        encode_utf8("\n"@) == seq![10u8],
{
    reveal_strlit("\n");
    assert("\n"@ =~= seq!['\n']);
    text::lemma_ascii_bytes('\n');
}

} // verus!
