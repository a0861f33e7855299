//! What every command is made of: edits, steps, marks and modes.

use core::ops::Range;
use vstd::prelude::*;
use vstd::utf8::*;

use crate::buffer;
use crate::command::{Mode, Motion, VisualKind};
use crate::edit;
use crate::edit::{Edit, Point};
use crate::editor::{mark_index, Editor};
use crate::effect;
use crate::effect::Effect;
use crate::grapheme;
use crate::grapheme::Bound;
use crate::motion;
use crate::motion::Span;
use crate::state;
use crate::state::EditorState;
use crate::strings;
use crate::text;
use crate::undo;

verus! {

/// Every offset carried through `edit`.
fn shift_offsets(offsets: &Vec<usize>, edit: Edit) -> (r: Vec<usize>)
    requires
        forall|i: int|
            0 <= i < offsets.len() ==> edit.shifted(#[trigger] offsets@[i] as int) <= usize::MAX,
    ensures
        r@ == offsets@.map_values(|j: usize| edit.shifted(j as int) as usize),
{
    let ghost f = |j: usize| edit.shifted(j as int) as usize;
    let mut out: Vec<usize> = Vec::new();
    let mut i: usize = 0;
    while i < offsets.len()
        invariant
            i <= offsets.len(),
            out.len() == i,
            f == (|j: usize| edit.shifted(j as int) as usize),
            forall|k: int|
                0 <= k < offsets.len() ==> edit.shifted(#[trigger] offsets@[k] as int)
                    <= usize::MAX,
            forall|k: int| 0 <= k < i ==> #[trigger] out@[k] == f(offsets@[k]),
        decreases offsets.len() - i,
    {
        assert(edit.shifted(offsets@[i as int] as int) <= usize::MAX);
        out.push(edit.shift(offsets[i]));
        i += 1;
    }
    assert(out@ =~= offsets@.map_values(f));
    out
}

/// Every mark carried through `edit`.
fn shift_marks(marks: &Vec<Option<usize>>, edit: Edit) -> (r: Vec<Option<usize>>)
    requires
        forall|i: int|
            0 <= i < marks.len() ==> (#[trigger] marks@[i] matches Some(m) ==> edit.shifted(
                m as int,
            ) <= usize::MAX),
    ensures
        r@ == marks@.map_values(
            |m: Option<usize>|
                match m {
                    Some(o) => Some(edit.shifted(o as int) as usize),
                    None => None,
                },
        ),
{
    let ghost f = |m: Option<usize>|
        match m {
            Some(o) => Some(edit.shifted(o as int) as usize),
            None => None,
        };
    let mut out: Vec<Option<usize>> = Vec::new();
    let mut i: usize = 0;
    while i < marks.len()
        invariant
            i <= marks.len(),
            out.len() == i,
            f == (|m: Option<usize>|
                match m {
                    Some(o) => Some(edit.shifted(o as int) as usize),
                    None => None,
                }),
            forall|k: int|
                0 <= k < marks.len() ==> (#[trigger] marks@[k] matches Some(m) ==> edit.shifted(
                    m as int,
                ) <= usize::MAX),
            forall|k: int| 0 <= k < i ==> #[trigger] out@[k] == f(marks@[k]),
        decreases marks.len() - i,
    {
        let mark: Option<usize> = marks[i];
        match mark {
            Some(offset) => {
                out.push(Some(edit.shift(offset)));
            },
            None => {
                out.push(None);
            },
        }
        i += 1;
    }
    assert(out@ =~= marks@.map_values(f));
    out
}

/// A change staged on a sound editor fits it, and takes every remembered position
/// to a position.
proof fn lemma_staged(s: EditorState, a: int, b: int, new: Seq<u8>)
    requires
        s.base(),
        valid_utf8(new),
        a <= b,
        text::bound(s.text, a),
        text::bound(s.text, b),
        s.room(a, b, new.len() as int),
    ensures
        ({
            let d = edit::staged(s.text, a, b, new);
            let len = s.text.len() - (b - a) + new.len();
            &&& d.edit.start_byte == a
            &&& d.edit.old_end_byte == b
            &&& d.edit.new_end_byte == a + new.len()
            &&& d.fits(s.text)
            &&& d.sized()
            &&& d.applied(s.text) == text::splice(s.text, a, b, new)
            &&& valid_utf8(d.applied(s.text))
            &&& d.applied(s.text).len() == len
            &&& forall|o: int|
                0 <= o <= s.text.len() ==> 0 <= #[trigger] d.edit.shifted(o) <= len
        }),
{
    edit::staged_points_are_positions(s.text, a, b, new);
    text::lemma_splice(s.text, a, b, new);
}

impl Editor {
    // -- execution -------------------------------------------------------

    pub(crate) fn bound(&self) -> (r: Bound)
        ensures
            r == self@.rest(),
    {
        match self.mode {
            Mode::Insert | Mode::Replace => Bound::PastEnd,
            Mode::Normal | Mode::Visual(_) => Bound::OnChar,
        }
    }

    pub(crate) fn set_mode(&mut self, mode: Mode, effects: &mut Vec<Effect>)
        requires
            old(self).sound(),
        ensures
            final(self).sound(),
            final(self).turn(final(effects)@) == old(self).turn(old(effects)@).into_mode(mode),
            state::keeps(old(self).turn(old(effects)@), final(self).turn(final(effects)@)),
            final(self)@.spare() == old(self)@.spare(),
            old(self)@.mode != mode || text::bound(old(self)@.text, old(self)@.cursor)
                ==> text::bound(final(self)@.text, final(self)@.cursor),
            old(self)@.mode != mode || old(self)@.legal() ==> final(self)@.legal(),
    {
        proof {
            reveal(state::keeps);
            reveal(state::accounts);
        }
        if self.mode != mode {
            self.mode = mode;
            self.cursor = grapheme::clamp(self.buffer(), self.cursor, self.bound());
            effects.push(Effect::ModeChanged(mode));
            proof {
                grapheme::lemma_rests(self@.text, self@.cursor, self@.rest());
                assert forall|len: int| #[trigger]
                    effect::leads(
                        len,
                        old(effects)@,
                        self@.text.len() as int,
                    ) implies effect::leads(len, effects@, self@.text.len() as int) by {
                    effect::lemma_followed_push(len, old(effects)@, Effect::ModeChanged(mode));
                }
            }
        }
    }

    pub(crate) fn bell(&self, effects: &mut Vec<Effect>)
        requires
            self.sound(),
        ensures
            self.turn(final(effects)@) == self.turn(old(effects)@).bell(),
            state::keeps(self.turn(old(effects)@), self.turn(final(effects)@)),
    {
        effects.push(Effect::Bell);
        proof {
            reveal(state::keeps);
            reveal(state::accounts);
            assert forall|len: int| #[trigger]
                effect::leads(len, old(effects)@, self@.text.len() as int) implies effect::leads(
                len,
                effects@,
                self@.text.len() as int,
            ) by {
                effect::lemma_followed_push(len, old(effects)@, Effect::Bell);
            }
        }
    }

    /// Shift every editor-owned remembered position through an applied edit.
    pub(crate) fn shift_positions(&mut self, edit: Edit)
        requires
            forall|i: int|
                0 <= i < old(self)@.jumps.len() ==> edit.shifted(
                    #[trigger] old(self)@.jumps[i] as int,
                ) <= usize::MAX,
            forall|i: int|
                0 <= i < old(self)@.marks.len() ==> (#[trigger] old(self)@.marks[i] matches Some(
                    m,
                ) ==> edit.shifted(m as int) <= usize::MAX),
        ensures
            final(self)@ == old(self)@.positions_shifted(edit),
            final(self).bindings_wf() == old(self).bindings_wf(),
    {
        self.jumps = shift_offsets(&self.jumps, edit);
        self.marks = shift_marks(&self.marks, edit);
    }

    /// Replace a stretch of text, and carry every remembered position along.
    pub(crate) fn edit(&mut self, range: Range<usize>, text: &str, effects: &mut Vec<Effect>)
        requires
            old(self).sound(),
            range.start <= range.end,
            text::bound(old(self)@.text, range.start as int),
            text::bound(old(self)@.text, range.end as int),
        ensures
            final(self).sound(),
            final(self).turn(final(effects)@) == old(self).turn(old(effects)@).edited(
                range.start as int,
                range.end as int,
                encode_utf8(text@),
            ),
            state::keeps(old(self).turn(old(effects)@), final(self).turn(final(effects)@)),
            final(self)@.spare() == old(self)@.spare(),
    {
        proof {
            reveal(state::positions_lie_in);
        }
        let ghost before = self@;
        let ghost new = encode_utf8(text@);
        let ghost a = range.start as int;
        let ghost b = range.end as int;
        let len: usize = strings::byte_len(text);
        if range.start == range.end && len == 0 {
            proof {
                state::lemma_still(self.turn(effects@), self.turn(effects@));
            }
            return;
        }
        let rest: usize = self.buffer().len_bytes() - (range.end - range.start);
        if len > buffer::MAX_LEN || rest > buffer::MAX_LEN - len {
            self.bell(effects);
            return;
        }
        proof {
            encode_utf8_valid_utf8(text@);
            lemma_staged(before, a, b, new);
        }
        let edit: Edit = self.doc.replace(range, text);
        self.shift_positions(edit);
        effects.push(Effect::Edit(edit));
        proof {
            reveal(state::keeps);
            reveal(state::accounts);
            let d = edit::staged(before.text, a, b, new);
            if before.in_step() {
                undo::recording_keeps_step(before.history, d, before.text);
            }
            assert forall|l: int| #[trigger]
                effect::leads(l, old(effects)@, before.text.len() as int) implies effect::leads(
                l,
                effects@,
                self@.text.len() as int,
            ) by {
                effect::lemma_followed_push(l, old(effects)@, Effect::Edit(edit));
            }
        }
    }

    // -- helpers ---------------------------------------------------------

    /// Where `motion` lands from `at`, with everything the editor remembers.
    pub(crate) fn resolve(
        &self,
        at: usize,
        motion: Motion,
        count: Option<usize>,
        bound: Bound,
    ) -> (r: Option<usize>)
        requires
            self.sound(),
            at <= self@.text.len(),
            motion::walks_chars(motion@) ==> text::bound(self@.text, at as int),
        ensures
            motion::same(
                r,
                motion::resolved(
                    self@.text,
                    at as int,
                    motion@,
                    count,
                    self@.sticky,
                    self@.last_find,
                    self@.last_search,
                    self@.viewport,
                    bound,
                ),
            ),
            r is Some ==> grapheme::rests(self@.text, r->0 as int, bound) && text::bound(
                self@.text,
                r->0 as int,
            ),
    {
        let last_search: Option<(&str, bool)> = match &self.last_search {
            Some((pattern, backward)) => Some((pattern.as_str(), *backward)),
            None => None,
        };
        motion::resolve(
            self.buffer(),
            at,
            motion,
            count,
            self.sticky,
            self.last_find,
            last_search,
            self.viewport,
            bound,
        )
    }

    /// Apply `motion` `times` from `at`, under `bound`.
    pub(crate) fn step(&self, at: usize, motion: Motion, times: usize, bound: Bound) -> (r: usize)
        requires
            self.sound(),
            at <= self@.text.len(),
            motion::walks_chars(motion@) ==> text::bound(self@.text, at as int),
        ensures
            r == self@.stepped(at as int, motion@, times, bound),
            r <= self@.text.len(),
            text::bound(self@.text, at as int) ==> text::bound(self@.text, r as int),
            motion@ is Left || motion@ is Right || motion@ is FirstNonBlank || motion@ is Up
                || motion@ is Down ==> text::bound(self@.text, r as int) && grapheme::rests(
                self@.text,
                r as int,
                Bound::PastEnd,
            ),
    {
        proof {
            reveal(motion::aimed);
        }
        match self.resolve(at, motion, Some(times), bound) {
            Some(landed) => {
                proof {
                    grapheme::lemma_rests(self@.text, landed as int, bound);
                }
                landed
            },
            None => at,
        }
    }

    /// One position back, crossing a row boundary if need be, which plain `h`
    /// deliberately will not do.
    pub(crate) fn prev_position(&self) -> (r: usize)
        requires
            self.sound(),
            text::bound(self@.text, self@.cursor),
        ensures
            r == self@.back_one(),
            text::bound(self@.text, r as int),
    {
        let point: Point = self.buffer().byte_to_point(self.cursor);
        if point.col > 0 {
            return self.step(self.cursor, Motion::Left, 1, Bound::PastEnd);
        }
        if point.row == 0 {
            return self.cursor;
        }
        self.buffer().row_content_range(point.row - 1).end
    }

    /// The grapheme immediately before an exclusive selection or edit endpoint.
    ///
    /// `h` deliberately stops at a row boundary, but a linewise selection's end
    /// can be the start of the following row after its trailing newline.
    pub(crate) fn previous_grapheme(&self, byte: usize) -> (r: usize)
        requires
            self.sound(),
        ensures
            r == self@.grapheme_before(byte as int),
            r <= self@.text.len(),
    {
        let len: usize = self.buffer().len_bytes();
        let byte: usize = if byte < len {
            byte
        } else {
            len
        };
        let point: Point = self.buffer().byte_to_point(byte);
        if byte > 0 && point.col == 0 {
            // The row above ends at its content end, not at `byte - 1`: a `\r\n`
            // terminator is two bytes and one grapheme, so stepping back a single
            // byte would land between them.
            proof {
                text::lemma_row_of(self@.text, byte as int);
            }
            self.buffer().row_content_range(point.row - 1).end
        } else {
            self.step(byte, Motion::Left, 1, Bound::PastEnd)
        }
    }

    pub(crate) fn set_mark(&mut self, name: char, offset: usize)
        requires
            old(self).sound(),
            offset <= old(self)@.text.len(),
        ensures
            final(self).sound(),
            final(self)@ == old(self)@.marked(name, offset as int),
    {
        proof {
            reveal(state::positions_lie_in);
        }
        if let Some(index) = mark_index(name) {
            self.marks.set(index, Some(offset));
        }
    }

    /// Reposition the cursor and refresh the remembered column with it.
    ///
    /// Anything that moves the cursor *other than a motion* has to come through
    /// here. Leaving `sticky` behind makes the next `j`/`k` aim at where the cursor
    /// used to be, which shows up as the cursor drifting sideways a keystroke later.
    ///
    /// Motions are the deliberate exception: [`Self::update_sticky`] preserves
    /// `$`'s stickiness, which an unconditional refresh would destroy. So is `~`,
    /// which keeps the column it began in for a `j` that follows.
    ///
    /// `byte` is clamped to whatever the current mode allows, so a caller that has
    /// just deleted the text it was aiming at need not work out where the end of the
    /// row went.
    pub(crate) fn place_cursor(&mut self, byte: usize)
        requires
            old(self).sound(),
        ensures
            final(self).sound(),
            final(self)@ == old(self)@.placed(byte as int),
            grapheme::rests(final(self)@.text, final(self)@.cursor, final(self)@.rest()),
            text::bound(final(self)@.text, final(self)@.cursor),
            final(self)@.legal(),
    {
        self.cursor = grapheme::clamp(self.buffer(), byte, self.bound());
        proof {
            grapheme::lemma_rests(self@.text, self@.cursor, self@.rest());
        }
        self.sticky = grapheme::grapheme_col(self.buffer(), self.cursor);
    }

    /// Refresh the remembered column from the cursor.
    pub(crate) fn align(&mut self)
        requires
            old(self).sound(),
            0 <= old(self)@.cursor <= old(self)@.text.len(),
        ensures
            final(self).sound(),
            final(self)@ == old(self)@.aligned(),
    {
        self.sticky = grapheme::grapheme_col(self.buffer(), self.cursor);
    }

    pub(crate) fn update_sticky(&mut self, motion: &Motion)
        requires
            old(self).sound(),
            0 <= old(self)@.cursor <= old(self)@.text.len(),
        ensures
            final(self).sound(),
            final(self)@ == old(self)@.stuck(motion@),
    {
        match motion {
            // Vertical movement consumes the sticky column without changing it.
            Motion::Up | Motion::Down => {},
            // `$` sticks to row ends, so subsequent `j` stays at the end.
            Motion::LastColumn => {
                self.sticky = grapheme::STICKY_END;
            },
            _ => self.align(),
        }
    }

    /// Remember the current position and discard destinations beyond it.
    pub(crate) fn push_jump(&mut self)
        requires
            old(self).sound(),
            0 <= old(self)@.cursor <= old(self)@.text.len(),
        ensures
            final(self).sound(),
            final(self)@ == old(self)@.jump_pushed(),
    {
        proof {
            reveal(state::positions_lie_in);
        }
        let ghost all = self.jumps@.take(self.jump_at as int).push(self.cursor);
        self.jumps.truncate(self.jump_at);
        self.jumps.push(self.cursor);
        assert(self.jumps@ =~= all);
        if self.jumps.len() > state::MAX_JUMPS {
            self.jumps.remove(0);
            assert(self.jumps@ =~= all.skip(1));
        }
        self.jump_at = self.jumps.len();
    }

    /// What the selection covers, in the granularity of the mode.
    pub(crate) fn selected_span(&self) -> (r: Option<Span>)
        requires
            self.sound(),
            text::bound(self@.text, self@.cursor),
        ensures
            match r {
                Some(span) => self@.selected() == Some(span@) && span@.lies_in(self@.text)
                    && motion::intact(span) && (self@.frames_graphemes() ==> self@.rests_at(
                    span@,
                )),
                None => self@.selected() is None,
            },
    {
        let anchor: usize = match self.anchor {
            None => {
                return None;
            },
            Some(anchor) => {
                if self.buffer().is_boundary(anchor) {
                    anchor
                } else {
                    grapheme::clamp(self.buffer(), anchor, Bound::PastEnd)
                }
            },
        };
        let (start, end): (usize, usize) = if anchor < self.cursor {
            (anchor, self.cursor)
        } else {
            (self.cursor, anchor)
        };
        match self.mode {
            Mode::Visual(VisualKind::Char) => Some(Span::Chars(start..self.char_end(start, end))),
            Mode::Visual(VisualKind::Line) => {
                let first: usize = self.buffer().byte_to_point(start).row;
                let last: usize = self.buffer().byte_to_point(end).row;
                proof {
                    text::lemma_newlines_mono(self@.text, start as int, end as int);
                }
                Some(Span::lines(first, last))
            },
            _ => None,
        }
    }

    /// Past the character at `end`, and not before `start`.
    pub(crate) fn char_end(&self, start: usize, end: usize) -> (r: usize)
        requires
            self.sound(),
            text::bound(self@.text, start as int),
            text::bound(self@.text, end as int),
        ensures
            r == self@.past_char(start as int, end as int),
            r >= start,
            text::bound(self@.text, r as int),
            grapheme::rests(self@.text, start as int, Bound::PastEnd) && grapheme::rests(
                self@.text,
                end as int,
                Bound::PastEnd,
            ) ==> grapheme::rests(self@.text, r as int, Bound::PastEnd),
    {
        let landed: Option<usize> = motion::resolve(
            self.buffer(),
            end,
            Motion::Right,
            None,
            0,
            None,
            None,
            self.viewport,
            Bound::PastEnd,
        );
        match landed {
            Some(past) if past > start => past,
            Some(_) => start,
            None => if end < start {
                start
            } else {
                end
            },
        }
    }

    /// The visual selection as a byte range, inclusive of the character under the
    /// cursor, which is what makes `vd` delete what you can see.
    #[must_use]
    pub fn selection(&self) -> (r: Option<Range<usize>>)
        requires
            self.wf(),
        ensures
            match r {
                Some(range) => self@.selection() == Some((range.start as int, range.end as int))
                    && range.start <= range.end && text::bound(self@.text, range.start as int)
                    && text::bound(self@.text, range.end as int) && (self@.frames_graphemes()
                    ==> grapheme::rests(self@.text, range.start as int, Bound::PastEnd)
                    && grapheme::rests(self@.text, range.end as int, Bound::PastEnd)),
                None => self@.selection() is None,
            },
    {
        self.selection_range()
    }

    pub(crate) fn selection_range(&self) -> (r: Option<Range<usize>>)
        requires
            self.sound(),
            text::bound(self@.text, self@.cursor),
        ensures
            match r {
                Some(range) => self@.selection() == Some((range.start as int, range.end as int))
                    && range.start <= range.end && text::bound(self@.text, range.start as int)
                    && text::bound(self@.text, range.end as int) && (self@.frames_graphemes()
                    ==> grapheme::rests(self@.text, range.start as int, Bound::PastEnd)
                    && grapheme::rests(self@.text, range.end as int, Bound::PastEnd)),
                None => self@.selection() is None,
            },
    {
        match self.selected_span() {
            Some(span) => {
                proof {
                    motion::lemma_extent(span@, self@.text);
                }
                Some(span.delete_range(self.buffer()))
            },
            None => None,
        }
    }

    /// Capture visual marks before an operator changes the selection's buffer.
    pub(crate) fn remember_visual_selection(&mut self)
        requires
            old(self).sound(),
            text::bound(old(self)@.text, old(self)@.cursor),
        ensures
            final(self).sound(),
            final(self)@ == old(self)@.selection_marked(),
    {
        if let Some(range) = self.selection_range() {
            self.set_mark('<', range.start);
            let end: usize = self.previous_grapheme(range.end);
            self.set_mark('>', end);
        }
    }

    pub(crate) fn leave_visual(&mut self, remember_selection: bool, effects: &mut Vec<Effect>)
        requires
            old(self).sound(),
            remember_selection ==> text::bound(old(self)@.text, old(self)@.cursor),
        ensures
            final(self).sound(),
            final(self).turn(final(effects)@) == old(self).turn(old(effects)@).visual_left(
                remember_selection,
            ),
            state::keeps(old(self).turn(old(effects)@), final(self).turn(final(effects)@)),
            final(self)@.spare() == old(self)@.spare(),
            old(self)@.mode != Mode::Normal || text::bound(old(self)@.text, old(self)@.cursor)
                ==> text::bound(final(self)@.text, final(self)@.cursor),
            old(self)@.mode != Mode::Normal || old(self)@.legal() ==> final(self)@.legal(),
    {
        let ghost start = self.turn(effects@);
        if remember_selection {
            self.remember_visual_selection();
        }
        self.anchor = None;
        let ghost middle = self.turn(effects@);
        self.set_mode(Mode::Normal, effects);
        proof {
            state::lemma_still(start, middle);
            state::lemma_keeps_then(start, middle, self.turn(effects@));
        }
    }
}

} // verus!
