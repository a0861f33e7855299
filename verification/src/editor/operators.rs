//! Operators over spans.

use core::ops::Range;
use vstd::prelude::*;
use vstd::utf8::*;

use crate::buffer;
use crate::command::{Mode, Motion, ObjectScope, Operator, Target, TextObject};
use crate::editor::Editor;
use crate::effect::Effect;
use crate::grapheme;
use crate::grapheme::Bound;
use crate::history::History;
use crate::indent;
use crate::motion;
use crate::motion::{Extent, Span};
use crate::object;
use crate::recase;
use crate::state;
use crate::state::Turn;
use crate::text;
use crate::undo;

verus! {

impl Editor {
    // -- operators -------------------------------------------------------

    /// The operator semantics `;` or `,` inherits from the remembered find.
    ///
    /// Any other motion is already concrete and passes through. Without this,
    /// [`Motion::is_inclusive`] has no direction to answer from and falls back to
    /// exclusive, which silently costs `d;` a character.
    pub(crate) fn motion_semantics(&self, motion: &Motion) -> (r: (bool, bool))
        ensures
            r == self@.semantics(motion@),
    {
        match (motion, self.last_find) {
            (Motion::RepeatFind { reverse }, Some(find)) => (false, find.backward == *reverse),
            _ => (motion.is_linewise(), motion.is_inclusive()),
        }
    }

    /// The span an operator's motion covers.
    pub(crate) fn motion_span(&self, operator: Operator, motion: Motion, count: Option<usize>) -> (r: Option<
        Span,
    >)
        requires
            self.sound(),
            text::bound(self@.text, self@.cursor),
        ensures
            match r {
                Some(span) => self@.motion_extent(operator, motion@, count) == Some(span@)
                    && span@.lies_in(self@.text) && motion::intact(span),
                None => self@.motion_extent(operator, motion@, count) is None,
            },
    {
        let concrete: Motion = match self.resolve_mark(motion) {
            None => {
                return None;
            },
            Some(concrete) => concrete,
        };
        // vi's one famous irregularity: `cw` behaves like `ce`, so that changing a
        // word does not swallow the space after it.
        let target: Motion = match concrete {
            Motion::WordForward { big } if operator == Operator::Change => {
                Motion::WordEnd { big }
            },
            other => other,
        };
        // Resolution keeps the `RepeatFind` form, because that is what tells
        // `motion::resolve` to skip the target a `t` is already parked on. Operator
        // semantics have to come from the concrete find it stands for, or `d;`
        // after `f,` stops one character short.
        let (linewise, inclusive): (bool, bool) = self.motion_semantics(&target);
        // An exclusive motion's landing place is the span's *end boundary*, not
        // somewhere the cursor has to be able to sit, so it may be one past the
        // last character; otherwise `dw` on the last word of the file leaves its
        // final character behind. An inclusive motion does land on a character, and
        // extends over it below.
        let bound: Bound = if inclusive {
            Bound::OnChar
        } else {
            Bound::PastEnd
        };
        let landed: usize = match self.resolve(self.cursor, target, count, bound) {
            None => {
                return None;
            },
            Some(landed) => landed,
        };
        let (start, end): (usize, usize) = if self.cursor < landed {
            (self.cursor, landed)
        } else {
            (landed, self.cursor)
        };
        if linewise {
            Some(self.row_span_between(start, end))
        } else if inclusive {
            Some(Span::Chars(start..self.char_end(start, end)))
        } else {
            Some(Span::Chars(start..end))
        }
    }

    /// The rows that `start..=end` touches.
    pub(crate) fn row_span_between(&self, start: usize, end: usize) -> (r: Span)
        requires
            self.sound(),
            start <= end <= self@.text.len(),
        ensures
            r@ == (Extent::Lines {
                first: text::row_of(self@.text, start as int),
                last: text::row_of(self@.text, end as int),
            }),
            r@.lies_in(self@.text),
            motion::intact(r),
    {
        let first: usize = self.buffer().byte_to_point(start).row;
        let last: usize = self.buffer().byte_to_point(end).row;
        proof {
            text::lemma_newlines_mono(self@.text, start as int, end as int);
        }
        Span::lines(first, last)
    }

    /// Resolve an operator's target to a span.
    pub(crate) fn span_of(&self, operator: Operator, target: Target, count: Option<usize>) -> (r: Option<
        Span,
    >)
        requires
            self.sound(),
            text::bound(self@.text, self@.cursor),
        ensures
            match r {
                Some(span) => self@.target_extent(operator, target@, count) == Some(span@)
                    && span@.lies_in(self@.text) && motion::intact(span) && (operator.shifts()
                    ==> span@ is Lines),
                None => self@.target_extent(operator, target@, count) is None,
            },
    {
        let repeat: usize = count.unwrap_or(1);
        let found: Option<Span> = match target {
            Target::Motion(motion) => self.motion_span(operator, motion, count),
            Target::CurrentRow => {
                let first: usize = self.buffer().byte_to_point(self.cursor).row;
                let rows: usize = self.buffer().len_rows();
                let far: usize = first.saturating_add(repeat.saturating_sub(1));
                let last: usize = if far < rows - 1 {
                    far
                } else {
                    rows - 1
                };
                Some(Span::lines(first, last))
            },
            Target::Object { scope, object } => object::object_span(
                self.buffer(),
                self.cursor,
                scope,
                object,
                repeat,
            ),
            Target::Selection => self.selected_span(),
        };
        match found {
            None => None,
            Some(span) => {
                if operator.forces_linewise() {
                    match span {
                        Span::Chars(range) => {
                            let back: usize = range.end.saturating_sub(1);
                            let end: usize = if back > range.start {
                                back
                            } else {
                                range.start
                            };
                            Some(self.row_span_between(range.start, end))
                        },
                        other => Some(other),
                    }
                } else {
                    Some(span)
                }
            },
        }
    }

    /// Change one row's indent. Empty rows stay untouched, while a whitespace-only
    /// row is deliberately still an indent worth changing.
    pub(crate) fn shift_row(
        &mut self,
        row: usize,
        operator: Operator,
        columns: usize,
        effects: &mut Vec<Effect>,
    )
        requires
            old(self).sound(),
            operator.shifts(),
            row < text::rows(old(self)@.text),
        ensures
            final(self).sound(),
            final(self).turn(final(effects)@) == old(self).turn(old(effects)@).row_shifted(
                row as int,
                operator,
                columns as int,
            ),
            state::keeps(old(self).turn(old(effects)@), final(self).turn(final(effects)@)),
            final(self)@.spare() == old(self)@.spare(),
            text::rows(final(self)@.text) == text::rows(old(self)@.text),
    {
        proof {
            reveal(Turn::row_shifted);
        }
        let ghost t = self@.text;
        let content: Range<usize> = self.buffer().row_content_range(row);
        let start: usize = content.start;
        let end: usize = content.end;
        proof {
            state::lemma_still(self.turn(effects@), self.turn(effects@));
        }
        if start == end {
            return;
        }
        let text: String = self.buffer().text_in(start..end);
        let bytes: &[u8] = text.as_str().as_bytes();
        let ghost c = t.subrange(start as int, end as int);
        assert(bytes@ == c);
        let n: usize = indent::count_indent(bytes);
        let tab: usize = indent::tab_columns(self.indent);
        let width: usize = indent::measure_indent(bytes, n, tab);
        let new: usize = if operator == Operator::ShiftRight {
            width.saturating_add(columns)
        } else {
            width.saturating_sub(columns)
        };
        let ghost rendered_bytes = indent::indentation(self.indent, new as int);
        proof {
            if n > 0 {
                assert(c[n - 1] == t[start + n - 1]);
                text::lemma_ascii(t, start + n - 1);
            }
            assert forall|k: int| start <= k < start + n implies t[k] != 10u8 by {
                assert(c[k - start] == t[k]);
            }
            assert(c.take(n as int) =~= t.subrange(start as int, start + n));
        }
        let size: usize = indent::indent_size(self.indent, new);
        let rest: usize = self.buffer().len_bytes() - n;
        if size > buffer::MAX_LEN || rest > buffer::MAX_LEN - size {
            assert(rendered_bytes != c.take(n as int));
            self.bell(effects);
            return;
        }
        let rendered: String = indent::render_indent(self.indent, new);
        let old_indent: String = self.buffer().text_in(start..start + n);
        proof {
            text::lemma_encode_injective(rendered@, old_indent@);
            text::lemma_same_rows(t, start as int, start + n, rendered_bytes);
        }
        if rendered != old_indent {
            self.edit(start..start + n, rendered.as_str(), effects);
        }
    }

    /// Shift rows from bottom to top so replacing one indent cannot invalidate an
    /// offset still needed by an earlier row.
    pub(crate) fn shift_rows(
        &mut self,
        first: usize,
        last: usize,
        operator: Operator,
        columns: usize,
        effects: &mut Vec<Effect>,
    )
        requires
            old(self).sound(),
            operator.shifts(),
            first <= last < text::rows(old(self)@.text),
        ensures
            final(self).sound(),
            final(self).turn(final(effects)@) == old(self).turn(old(effects)@).rows_shifted(
                first as int,
                last as int,
                operator,
                columns as int,
            ),
            state::keeps(old(self).turn(old(effects)@), final(self).turn(final(effects)@)),
            final(self)@.spare() == old(self)@.spare(),
            text::rows(final(self)@.text) == text::rows(old(self)@.text),
    {
        let ghost start = self.turn(effects@);
        proof {
            text::lemma_row_of(self@.text, 0);
        }
        proof {
            state::lemma_still(start, start);
        }
        let mut row: usize = last + 1;
        while row > first
            invariant
                first <= row <= last + 1,
                last < text::rows(self@.text),
                self.sound(),
                operator.shifts(),
                text::rows(self@.text) == text::rows(start.state.text),
                start.rows_shifted(first as int, last as int, operator, columns as int)
                    == self.turn(effects@).rows_shifted(
                    first as int,
                    row - 1,
                    operator,
                    columns as int,
                ),
                state::keeps(start, self.turn(effects@)),
                self@.spare() == start.state.spare(),
            decreases row,
        {
            row -= 1;
            let ghost middle = self.turn(effects@);
            self.shift_row(row, operator, columns, effects);
            proof {
                state::lemma_keeps_then(start, middle, self.turn(effects@));
            }
        }
    }

    /// Open the undo group that spans a whole insert session.
    ///
    /// This is the coarser of the two granularities: the [`Edit`] stream still
    /// reports one edit per keystroke so highlighting keeps up, but the user gets
    /// one `u`.
    pub(crate) fn open_insert_group(&mut self)
        requires
            old(self).sound(),
            old(self)@.spare() == 1,
        ensures
            final(self).sound(),
            final(self)@ == old(self)@.session_opened(),
            forall|effects: Seq<Effect>|
                state::keeps(
                    #[trigger] old(self).turn(effects),
                    final(self).turn(effects),
                ),
            final(self)@.spare() == 1,
    {
        proof {
            reveal(state::keeps);
            reveal(state::accounts);
        }
        if !self.insert_group {
            // Nested inside the current command's group, so the caret passed here
            // is never the one recorded; see `run`.
            let at: usize = self.cursor;
            proof {
                if self@.in_step() {
                    undo::beginning_a_group_keeps_step(
                        self@.history,
                        Some(at),
                        self@.text,
                    );
                }
            }
            self.doc.history_mut().begin_group(Some(at));
            self.insert_group = true;
        }
    }

    pub(crate) fn close_insert_group(&mut self)
        requires
            old(self).sound(),
            old(self)@.spare() == 1,
        ensures
            final(self).sound(),
            final(self)@ == old(self)@.session_closed(),
            forall|effects: Seq<Effect>|
                state::keeps(
                    #[trigger] old(self).turn(effects),
                    final(self).turn(effects),
                ),
            final(self)@.spare() == 1,
    {
        proof {
            reveal(state::keeps);
            reveal(state::accounts);
        }
        if self.insert_group {
            let at: usize = self.cursor;
            proof {
                if self@.in_step() {
                    undo::ending_a_group_keeps_step(self@.history, Some(at), self@.text);
                }
            }
            self.doc.history_mut().end_group(Some(at));
            self.insert_group = false;
        }
    }

    /// Clamp the cursor to `home`, and then, for a linewise operator, to the first
    /// character of its row that is not whitespace.
    pub(crate) fn bring_home(&mut self, home: usize, linewise: bool)
        requires
            old(self).sound(),
        ensures
            final(self).sound(),
            forall|effects: Seq<Effect>|
                final(self).turn(effects) == (#[trigger] old(self).turn(effects)).brought_home(
                    home as int,
                    linewise,
                ) && state::still(old(self).turn(effects), final(self).turn(effects)),
            text::bound(final(self)@.text, final(self)@.cursor),
            final(self)@.legal(),
            final(self)@.mode == old(self)@.mode,
    {
        self.cursor = grapheme::clamp(self.buffer(), home, self.bound());
        proof {
            grapheme::lemma_rests(self@.text, self@.cursor, self@.rest());
        }
        if linewise {
            self.cursor = self.step(self.cursor, Motion::FirstNonBlank, 1, Bound::OnChar);
        }
    }

    /// Shift the rows of a span.
    pub(crate) fn perform_shift(
        &mut self,
        operator: Operator,
        span: &Span,
        amount: usize,
        effects: &mut Vec<Effect>,
    )
        requires
            old(self).sound(),
            span@.lies_in(old(self)@.text),
            motion::intact(*span),
            operator.shifts(),
            span@ is Lines,
        ensures
            final(self).sound(),
            final(self).turn(final(effects)@) == old(self).turn(old(effects)@).performed(
                operator,
                span@,
                amount,
            ),
            state::keeps(old(self).turn(old(effects)@), final(self).turn(final(effects)@)),
            final(self)@.spare() == old(self)@.spare(),
            text::bound(final(self)@.text, final(self)@.cursor),
            final(self)@.legal(),
    {
        proof {
            reveal(Turn::performed);
        }
        let ghost start = self.turn(effects@);
        let (first, last): (usize, usize) = match span {
            Span::Lines(rows) => (*rows.start(), *rows.end()),
            Span::Chars(range) => (range.start, range.end),
        };
        let columns: usize = match self.indent.shift_width.checked_mul(amount) {
            Some(columns) => columns,
            None => usize::MAX,
        };
        self.shift_rows(first, last, operator, columns, effects);
        let ghost middle = self.turn(effects@);
        let home: usize = self.buffer().row_content_range(first).start;
        self.cursor = home;
        self.cursor = self.step(home, Motion::FirstNonBlank, 1, Bound::OnChar);
        proof {
            state::lemma_still(middle, self.turn(effects@));
            state::lemma_keeps_then(start, middle, self.turn(effects@));
        }
    }

    /// Change the case of a span.
    pub(crate) fn perform_recase(&mut self, operator: Operator, span: &Span, effects: &mut Vec<Effect>)
        requires
            old(self).sound(),
            span@.lies_in(old(self)@.text),
            motion::intact(*span),
            operator is Lower || operator is Upper || operator is SwapCase,
        ensures
            final(self).sound(),
            forall|amount: usize|
                final(self).turn(final(effects)@) == #[trigger] old(self).turn(
                    old(effects)@,
                ).performed(operator, span@, amount),
            state::keeps(old(self).turn(old(effects)@), final(self).turn(final(effects)@)),
            final(self)@.spare() == old(self)@.spare(),
            text::bound(final(self)@.text, final(self)@.cursor),
            final(self)@.legal(),
    {
        proof {
            reveal(Turn::performed);
        }
        proof {
            motion::lemma_extent(span@, self@.text);
        }
        let ghost begin = self.turn(effects@);
        let range: Range<usize> = span.content_range(self.buffer());
        let start: usize = range.start;
        let end: usize = range.end;
        let home: usize = span.home(self.buffer());
        let text: String = self.buffer().text_in(start..end);
        proof {
            encode_utf8_decode_utf8(text@);
        }
        let recased: String = recase::recase(text.as_str(), operator);
        self.edit(start..end, recased.as_str(), effects);
        let ghost middle = self.turn(effects@);
        self.bring_home(home, span.is_linewise());
        proof {
            state::lemma_still(middle, self.turn(effects@));
            state::lemma_keeps_then(begin, middle, self.turn(effects@));
        }
    }

    /// Delete a span.
    pub(crate) fn perform_delete(&mut self, span: &Span, effects: &mut Vec<Effect>)
        requires
            old(self).sound(),
            span@.lies_in(old(self)@.text),
            motion::intact(*span),
        ensures
            final(self).sound(),
            forall|amount: usize|
                final(self).turn(final(effects)@) == #[trigger] old(self).turn(
                    old(effects)@,
                ).performed(Operator::Delete, span@, amount),
            state::keeps(old(self).turn(old(effects)@), final(self).turn(final(effects)@)),
            final(self)@.spare() == old(self)@.spare(),
            text::bound(final(self)@.text, final(self)@.cursor),
            final(self)@.legal(),
    {
        proof {
            reveal(Turn::performed);
        }
        proof {
            motion::lemma_extent(span@, self@.text);
            buffer::lemma_empty_literal();
        }
        let ghost begin = self.turn(effects@);
        let range: Range<usize> = span.delete_range(self.buffer());
        let home: usize = span.home(self.buffer());
        self.edit(range, "", effects);
        let ghost middle = self.turn(effects@);
        self.bring_home(home, span.is_linewise());
        proof {
            state::lemma_still(middle, self.turn(effects@));
            state::lemma_keeps_then(begin, middle, self.turn(effects@));
        }
    }

    /// Delete a span and begin an insert session in its place.
    pub(crate) fn perform_change(&mut self, span: &Span, effects: &mut Vec<Effect>)
        requires
            old(self).sound(),
            old(self)@.spare() == 1,
            span@.lies_in(old(self)@.text),
            motion::intact(*span),
        ensures
            final(self).sound(),
            forall|amount: usize|
                final(self).turn(final(effects)@) == #[trigger] old(self).turn(
                    old(effects)@,
                ).performed(Operator::Change, span@, amount),
            state::keeps(old(self).turn(old(effects)@), final(self).turn(final(effects)@)),
            final(self)@.spare() == old(self)@.spare(),
            text::bound(final(self)@.text, final(self)@.cursor),
            old(self)@.mode != Mode::Insert ==> final(self)@.legal(),
    {
        proof {
            reveal(Turn::performed);
        }
        // Linewise change empties the rows but keeps one, so insert begins on a
        // blank row rather than joining the next one up. That is exactly the
        // content range: it stops short of the terminator.
        let ghost begin = self.turn(effects@);
        let range: Range<usize> = span.content_range(self.buffer());
        let start: usize = range.start;
        proof {
            motion::lemma_extent(span@, self@.text);
            buffer::lemma_empty_literal();
            encode_utf8_valid_utf8(""@);
            text::lemma_splice_ends(self@.text, start as int, range.end as int, Seq::empty());
        }
        self.edit(range, "", effects);
        let ghost one = self.turn(effects@);
        self.cursor = start;
        let ghost two = self.turn(effects@);
        self.open_insert_group();
        let ghost three = self.turn(effects@);
        self.set_mode(Mode::Insert, effects);
        proof {
            state::lemma_still(one, two);
            state::lemma_keeps_then(begin, one, two);
            state::lemma_keeps_then(begin, two, three);
            state::lemma_keeps_then(begin, three, self.turn(effects@));
        }
    }

    /// What an operator does to its span, the register already filled.
    pub(crate) fn perform(
        &mut self,
        operator: Operator,
        span: &Span,
        amount: usize,
        effects: &mut Vec<Effect>,
    )
        requires
            old(self).sound(),
            old(self)@.spare() == 1,
            span@.lies_in(old(self)@.text),
            motion::intact(*span),
            operator.shifts() ==> span@ is Lines,
        ensures
            final(self).sound(),
            final(self).turn(final(effects)@) == old(self).turn(old(effects)@).performed(
                operator,
                span@,
                amount,
            ),
            state::keeps(old(self).turn(old(effects)@), final(self).turn(final(effects)@)),
            final(self)@.spare() == old(self)@.spare(),
            text::bound(final(self)@.text, final(self)@.cursor),
            operator != Operator::Change || old(self)@.mode != Mode::Insert
                ==> final(self)@.legal(),
    {
        proof {
            reveal(Turn::performed);
        }
        match operator {
            Operator::ShiftRight | Operator::ShiftLeft => {
                self.perform_shift(operator, span, amount, effects);
            },
            Operator::Lower | Operator::Upper | Operator::SwapCase => {
                self.perform_recase(operator, span, effects);
            },
            Operator::Yank => {
                let ghost begin = self.turn(effects@);
                let home: usize = span.home(self.buffer());
                self.bring_home(home, false);
                proof {
                    state::lemma_still(begin, self.turn(effects@));
                }
            },
            Operator::Delete => self.perform_delete(span, effects),
            Operator::Change => self.perform_change(span, effects),
        }
    }

    pub(crate) fn operate(
        &mut self,
        operator: Operator,
        span: Span,
        amount: usize,
        effects: &mut Vec<Effect>,
    )
        requires
            old(self).sound(),
            old(self)@.spare() == 1,
            text::bound(old(self)@.text, old(self)@.cursor),
            span@.lies_in(old(self)@.text),
            motion::intact(span),
            operator.shifts() ==> span@ is Lines,
        ensures
            final(self).sound(),
            final(self).turn(final(effects)@) == old(self).turn(old(effects)@).operated(
                operator,
                span@,
                amount,
            ),
            state::keeps(old(self).turn(old(effects)@), final(self).turn(final(effects)@)),
            final(self)@.spare() == old(self)@.spare(),
            text::bound(final(self)@.text, final(self)@.cursor),
            old(self)@.legal() && (operator != Operator::Change || old(self)@.mode
                != Mode::Insert) ==> final(self)@.legal(),
    {
        proof {
            reveal(Turn::operated);
        }
        let ghost begin = self.turn(effects@);
        let was_visual: bool = self.mode.is_visual();
        if was_visual {
            self.remember_visual_selection();
        }
        let ghost marked = self.turn(effects@);
        proof {
            state::lemma_still(begin, marked);
        }
        let span_is_empty: bool = match &span {
            Span::Chars(range) => range.start == range.end,
            Span::Lines(_) => self.buffer().len_bytes() == 0,
        };
        if span_is_empty && operator != Operator::Change && !operator.forces_linewise() {
            self.bell(effects);
            proof {
                state::lemma_keeps_then(begin, marked, self.turn(effects@));
            }
            let ghost rung = self.turn(effects@);
            // Still drop the selection: a no-op operator must not strand the
            // editor in visual mode, or the next keystroke is interpreted against
            // a selection the user thinks they have dismissed.
            if was_visual {
                self.leave_visual(false, effects);
                proof {
                    state::lemma_keeps_then(begin, rung, self.turn(effects@));
                }
            }
            return;
        }
        if operator.yanks() {
            self.yank(&span);
        }
        let ghost filled = self.turn(effects@);
        self.perform(operator, &span, amount, effects);
        let ghost performed = self.turn(effects@);
        proof {
            state::lemma_still(begin, filled);
            state::lemma_keeps_then(begin, filled, performed);
        }
        if was_visual && self.mode.is_visual() {
            self.leave_visual(false, effects);
            proof {
                state::lemma_keeps_then(begin, performed, self.turn(effects@));
            }
        }
        let ghost left = self.turn(effects@);
        self.align();
        proof {
            state::lemma_still(left, self.turn(effects@));
            state::lemma_keeps_then(begin, left, self.turn(effects@));
        }
    }

    pub(crate) fn operate_on(
        &mut self,
        operator: Operator,
        target: Target,
        count: Option<usize>,
        effects: &mut Vec<Effect>,
    )
        requires
            old(self).sound(),
            old(self)@.spare() == 1,
            text::bound(old(self)@.text, old(self)@.cursor),
        ensures
            final(self).sound(),
            final(self).turn(final(effects)@) == old(self).turn(old(effects)@).operated_on(
                operator,
                target@,
                count,
            ),
            state::keeps(old(self).turn(old(effects)@), final(self).turn(final(effects)@)),
            final(self)@.spare() == old(self)@.spare(),
            text::bound(final(self)@.text, final(self)@.cursor),
            old(self)@.legal() && (operator != Operator::Change || old(self)@.mode
                != Mode::Insert) ==> final(self)@.legal(),
    {
        proof {
            reveal(Turn::operated_on);
        }
        let ghost begin = self.turn(effects@);
        self.remember_target(&target);
        let ghost middle = self.turn(effects@);
        proof {
            state::lemma_still(begin, middle);
        }
        match self.span_of(operator, target, count) {
            Some(span) => {
                let amount: usize = if self.mode.is_visual() {
                    count.unwrap_or(1)
                } else {
                    1
                };
                self.operate(operator, span, amount, effects);
            },
            None => self.bell(effects),
        }
        proof {
            state::lemma_keeps_then(begin, middle, self.turn(effects@));
        }
    }

    /// Extend the selection to a text object.
    pub(crate) fn select_object(
        &mut self,
        scope: ObjectScope,
        object: TextObject,
        repeat: usize,
        effects: &mut Vec<Effect>,
    )
        requires
            old(self).sound(),
            text::bound(old(self)@.text, old(self)@.cursor),
        ensures
            final(self).sound(),
            final(self).turn(final(effects)@) == old(self).turn(old(effects)@).object_selected(
                scope,
                object,
                repeat,
            ),
            state::keeps(old(self).turn(old(effects)@), final(self).turn(final(effects)@)),
            final(self)@.spare() == old(self)@.spare(),
            text::bound(final(self)@.text, final(self)@.cursor),
            old(self)@.legal() ==> final(self)@.legal(),
    {
        proof {
            reveal(Turn::object_selected);
        }
        match object::object_span(self.buffer(), self.cursor, scope, object, repeat) {
            Some(span) => {
                let (start, end): (usize, usize) = match &span {
                    Span::Chars(range) => (range.start, range.end),
                    Span::Lines(rows) => (
                        self.buffer().row_range(*rows.start()).start,
                        self.buffer().row_range(*rows.end()).end,
                    ),
                };
                self.anchor = Some(start);
                let last: usize = grapheme::clamp(
                    self.buffer(),
                    end.saturating_sub(1),
                    Bound::OnChar,
                );
                self.place_cursor(last);
                proof {
                    state::lemma_still(old(self).turn(effects@), self.turn(effects@));
                }
            },
            None => self.bell(effects),
        }
    }
}

} // verus!
