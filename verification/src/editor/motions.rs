//! Moving, jumping, scrolling, and remembering where things were.

use core::ops::Range;
use vstd::prelude::*;
use vstd::utf8::*;
use crate::command::{Command, Find, Motion, Scroll, Target};
use crate::edit::Edit;
use crate::editor::{Editor, Register};
use crate::effect;
use crate::effect::Effect;
use crate::grapheme;
use crate::motion;
use crate::motion::Span;
use crate::state;
use crate::state::{EditorState, Turn};
use crate::text;

verus! {

impl Editor {
    // -- motions and jumps -----------------------------------------------

    /// Move to a host-supplied location, remembering the position left behind.
    ///
    /// The destination is clamped to the buffer and pulled back to a grapheme
    /// boundary, so byte-oriented hosts cannot leave the caret mid-character.
    pub fn jump_to(&mut self, offset: usize)
        requires
            old(self).wf(),
        ensures
            final(self)@ == old(self)@.jump_pushed().placed(offset as int),
            final(self).wf(),
            grapheme::rests(final(self)@.text, final(self)@.cursor, final(self)@.rest()),
            old(self)@.in_step() ==> final(self)@.in_step(),
    {
        self.push_jump();
        self.place_cursor(offset);
    }

    pub(crate) fn remember_find(&mut self, motion: &Motion)
        requires
            old(self).sound(),
        ensures
            final(self).sound(),
            final(self)@ == old(self)@.find_remembered(motion@),
    {
        if let Motion::Find(find) = motion {
            self.last_find = Some(*find);
        }
    }

    pub(crate) fn remember_search(&mut self, motion: &Motion)
        requires
            old(self).sound(),
        ensures
            final(self).sound(),
            final(self)@ == old(self)@.search_remembered(motion@),
    {
        if let Motion::Search { pattern, backward } = motion {
            self.last_search = Some((pattern.clone(), *backward));
        }
    }

    pub(crate) fn remember_target(&mut self, target: &Target)
        requires
            old(self).sound(),
        ensures
            final(self).sound(),
            final(self)@ == match target@ {
                Target::Motion(motion) => old(self)@.find_remembered(motion).search_remembered(
                    motion,
                ),
                _ => old(self)@,
            },
    {
        if let Target::Motion(motion) = target {
            self.remember_find(motion);
            self.remember_search(motion);
        }
    }

    /// Turn an editor-owned mark into the pure resolver's concrete vocabulary.
    pub(crate) fn resolve_mark(&self, motion: Motion) -> (r: Option<Motion>)
        requires
            self.sound(),
        ensures
            match r {
                Some(target) => self@.mark_resolved(motion@) == Some(target@),
                None => self@.mark_resolved(motion@) is None,
            },
    {
        match motion {
            Motion::Mark { name, exact } => {
                // `''` and ``` `` ``` return to where the latest jump started,
                // which is the newest ring entry. Going there pushes the position
                // being left in turn, so repeating the key toggles between the
                // two rather than walking further back as `<C-o>` does.
                let offset: Option<usize> = if name == '\'' || name == '`' {
                    let n: usize = self.jumps.len();
                    if n > 0 {
                        Some(self.jumps[n - 1])
                    } else {
                        None
                    }
                } else {
                    self.mark_offset(name)
                };
                match offset {
                    Some(offset) => Some(Motion::ToOffset { offset, linewise: !exact }),
                    None => None,
                }
            },
            other => Some(other),
        }
    }

    pub(crate) fn move_by(&mut self, motion: Motion, count: Option<usize>, effects: &mut Vec<Effect>)
        requires
            old(self).sound(),
            text::bound(old(self)@.text, old(self)@.cursor),
        ensures
            final(self).sound(),
            final(self).turn(final(effects)@) == old(self).turn(old(effects)@).moved(
                motion@,
                count,
            ),
            state::keeps(old(self).turn(old(effects)@), final(self).turn(final(effects)@)),
            final(self)@.spare() == old(self)@.spare(),
            text::bound(final(self)@.text, final(self)@.cursor),
            old(self)@.legal() || state::steadies(old(self)@, Command::Move(motion@), count)
                ==> final(self)@.legal(),
            final(self)@.cursor != old(self)@.cursor ==> grapheme::rests(
                final(self)@.text,
                final(self)@.cursor,
                final(self)@.rest(),
            ),
    {
        proof {
            reveal(Turn::moved);
        }
        let target: Motion = match self.resolve_mark(motion) {
            None => {
                self.bell(effects);
                return;
            },
            Some(target) => target,
        };
        let ghost start = self.turn(effects@);
        // A submitted pattern becomes the last search even when it has no match;
        // `n` then repeats that same failed search, as vi does.
        self.remember_search(&target);
        let ghost middle = self.turn(effects@);
        match self.resolve(self.cursor, target.clone(), count, self.bound()) {
            Some(landed) => {
                if landed != self.cursor && pushes_jump(&target) {
                    self.push_jump();
                }
                self.cursor = landed;
                proof {
                    grapheme::lemma_rests(self@.text, self@.cursor, self@.rest());
                }
                self.remember_find(&target);
                self.update_sticky(&target);
                proof {
                    state::lemma_still(start, self.turn(effects@));
                }
            },
            None => {
                self.bell(effects);
                proof {
                    state::lemma_still(start, middle);
                    state::lemma_keeps_then(start, middle, self.turn(effects@));
                }
            },
        }
    }

    pub(crate) fn jump_back(&mut self, effects: &mut Vec<Effect>)
        requires
            old(self).sound(),
            text::bound(old(self)@.text, old(self)@.cursor),
        ensures
            final(self).sound(),
            final(self).turn(final(effects)@) == old(self).turn(old(effects)@).jumped_back(),
            state::keeps(old(self).turn(old(effects)@), final(self).turn(final(effects)@)),
            final(self)@.spare() == old(self)@.spare(),
            text::bound(final(self)@.text, final(self)@.cursor),
            old(self)@.legal() ==> final(self)@.legal(),
    {
        proof {
            reveal(state::positions_lie_in);
        }
        proof {
            reveal(Turn::jumped_back);
        }
        if self.jumps.len() == 0 {
            self.bell(effects);
            return;
        }
        if self.jump_at == self.jumps.len() {
            // Add the present so `<C-i>` can return here, then skip it to reach
            // the position before the jump that started this traversal.
            self.push_jump();
            self.jump_at = self.jumps.len() - 2;
        } else if self.jump_at == 0 {
            self.bell(effects);
            return;
        } else {
            self.jump_at -= 1;
        }
        self.place_cursor(self.jumps[self.jump_at]);
        proof {
            state::lemma_still(old(self).turn(effects@), self.turn(effects@));
        }
    }

    /// Return towards the present, ringing at the newest position as
    /// [`Self::jump_back`] does at the oldest.
    pub(crate) fn jump_forward(&mut self, effects: &mut Vec<Effect>)
        requires
            old(self).sound(),
            text::bound(old(self)@.text, old(self)@.cursor),
        ensures
            final(self).sound(),
            final(self).turn(final(effects)@) == old(self).turn(old(effects)@).jumped_forward(),
            state::keeps(old(self).turn(old(effects)@), final(self).turn(final(effects)@)),
            final(self)@.spare() == old(self)@.spare(),
            text::bound(final(self)@.text, final(self)@.cursor),
            old(self)@.legal() ==> final(self)@.legal(),
    {
        proof {
            reveal(state::positions_lie_in);
        }
        proof {
            reveal(Turn::jumped_forward);
        }
        let next: usize = self.jump_at + 1;
        if next >= self.jumps.len() {
            self.bell(effects);
            return;
        }
        self.place_cursor(self.jumps[next]);
        // Landing on the last entry means we are back at the present.
        self.jump_at = if next + 1 == self.jumps.len() {
            self.jumps.len()
        } else {
            next
        };
        proof {
            state::lemma_still(old(self).turn(effects@), self.turn(effects@));
        }
    }

    pub(crate) fn scroll(&mut self, scroll: Scroll, effects: &mut Vec<Effect>)
        requires
            old(self).sound(),
            text::bound(old(self)@.text, old(self)@.cursor),
        ensures
            final(self).sound(),
            final(self).turn(final(effects)@) == old(self).turn(old(effects)@).scrolled(scroll),
            state::keeps(old(self).turn(old(effects)@), final(self).turn(final(effects)@)),
            final(self)@.spare() == old(self)@.spare(),
            text::bound(final(self)@.text, final(self)@.cursor),
            old(self)@.legal() ==> final(self)@.legal(),
    {
        proof {
            reveal(Turn::scrolled);
        }
        let height: usize = self.viewport.height;
        let half: usize = if height / 2 < 1 {
            1
        } else {
            height / 2
        };
        // vi preserves two rows of overlap between full pages.
        let page: usize = if height < 3 {
            1
        } else {
            height - 2
        };
        let step: Option<(Motion, usize)> = match scroll {
            Scroll::HalfPageDown => Some((Motion::Down, half)),
            Scroll::HalfPageUp => Some((Motion::Up, half)),
            Scroll::PageDown => Some((Motion::Down, page)),
            Scroll::PageUp => Some((Motion::Up, page)),
            // These only ask the host to position its window; they do not move
            // the caret.
            Scroll::Center | Scroll::Top | Scroll::Bottom => None,
        };
        if height != 0 {
            if let Some((motion, rows)) = step {
                let landed: usize = self.step(self.cursor, motion, rows, self.bound());
                if landed != self.cursor {
                    self.push_jump();
                    self.cursor = landed;
                }
            }
        }
        effects.push(Effect::Scroll(scroll));
        proof {
            reveal(state::keeps);
            reveal(state::accounts);
            assert forall|len: int| #[trigger]
                effect::leads(len, old(effects)@, self@.text.len() as int) implies effect::leads(
                len,
                effects@,
                self@.text.len() as int,
            ) by {
                effect::lemma_followed_push(len, old(effects)@, Effect::Scroll(scroll));
            }
        }
    }

    // -- marks -----------------------------------------------------------

    /// Remember the outer extent of every edit emitted by one command.
    pub(crate) fn remember_change(&mut self, effects: &Vec<Effect>)
        requires
            old(self).sound(),
            exists|len: int| effect::leads(len, effects@, old(self)@.text.len() as int),
        ensures
            final(self).sound(),
            final(self)@ == old(self)@.change_marked(effects@),
            final(self)@ == (EditorState { marks: final(self)@.marks, ..old(self)@ }),
    {
        proof {
            reveal(EditorState::change_marked);
        }
        let ghost len = choose|len: int|
            effect::leads(len, effects@, old(self)@.text.len() as int);
        let ghost end_len = self@.text.len() as int;
        // `shift_rows` edits from bottom to top. Each edit's coordinates are in the
        // buffer as it stood when that one happened, so carry its endpoints through
        // later edits before comparing the command's final extent.
        let mut extent: Option<(usize, usize)> = None;
        let mut i: usize = effects.len();
        while i > 0
            invariant
                i <= effects.len(),
                effect::leads(len, effects@, end_len),
                end_len <= usize::MAX,
                match extent {
                    Some((a, b)) => effect::edited_extent(effects@, i as int) == Some(
                        (a as int, b as int),
                    ),
                    None => effect::edited_extent(effects@, i as int) is None,
                },
            decreases i,
        {
            i -= 1;
            if let Effect::Edit(edit) = effects[i] {
                proof {
                    effect::lemma_length_known(
                        len,
                        effects@,
                        i as int,
                        effects@.len() as int,
                    );
                    effect::lemma_length_known(len, effects@, i + 1, effects@.len() as int);
                }
                let start: usize = carry(effects, i + 1, edit.start_byte, Ghost(len));
                let end: usize = carry(effects, i + 1, edit.new_end_byte, Ghost(len));
                extent = match extent {
                    None => Some((start, end)),
                    Some((a, b)) => Some(
                        (
                            if start < a {
                                start
                            } else {
                                a
                            },
                            if end > b {
                                end
                            } else {
                                b
                            },
                        ),
                    ),
                };
            }
        }
        proof {
            effect::lemma_edited_extent(len, effects@, 0);
        }
        if let Some((start, end)) = extent {
            self.set_mark('[', start);
            let last: usize = self.previous_grapheme(end);
            self.set_mark(']', last);
        }
    }

    pub(crate) fn yank(&mut self, span: &Span)
        requires
            old(self).sound(),
            span@.lies_in(old(self)@.text),
            motion::intact(*span),
        ensures
            final(self).sound(),
            final(self)@ == old(self)@.yanked(span@),
    {
        let ghost t = self@.text;
        proof {
            motion::lemma_extent(span@, t);
        }
        let (start, end, linewise): (usize, usize, bool) = match span {
            Span::Chars(range) => (range.start, range.end, false),
            Span::Lines(rows) => {
                proof {
                    let first = rows@.start as int;
                    let last = rows@.end as int;
                    text::lemma_rows(t, first);
                    text::lemma_rows(t, last);
                    if first < last {
                        text::lemma_row_start_mono(t, first, last);
                    }
                }
                (
                    self.buffer().row_range(*rows.start()).start,
                    self.buffer().row_range(*rows.end()).end,
                    true,
                )
            },
        };
        let mut text: String = self.buffer().text_in(start..end);
        if linewise && !(end > start && self.buffer().byte(end - 1) == 10u8) {
            proof {
                text::lemma_push_ascii(text@, '\n');
            }
            text.push('\n');
        }
        self.register = Register { text, linewise };
        self.set_mark('[', start);
        let last: usize = self.previous_grapheme(end);
        self.set_mark(']', last);
    }
}

/// `offset` carried through the edits among `effects` from the `i`th on.
fn carry(effects: &Vec<Effect>, i: usize, offset: usize, Ghost(len): Ghost<int>) -> (r: usize)
    requires
        i <= effects.len(),
        effect::followed(len, effects@) is Some,
        effect::followed(len, effects@)->0 <= usize::MAX,
        effect::length_at(len, effects@, i as int) is Some,
        offset <= effect::length_at(len, effects@, i as int)->0,
    ensures
        r == effect::carried(effects@, i as int, offset as int),
{
    let mut at: usize = offset;
    let mut k: usize = i;
    proof {
        effect::lemma_carried(len, effects@, i as int, offset as int);
    }
    while k < effects.len()
        invariant
            i <= k <= effects.len(),
            effect::followed(len, effects@) is Some,
            effect::followed(len, effects@)->0 <= usize::MAX,
            effect::length_at(len, effects@, k as int) is Some,
            at <= effect::length_at(len, effects@, k as int)->0,
            effect::carried(effects@, i as int, offset as int) == effect::carried(
                effects@,
                k as int,
                at as int,
            ),
        decreases effects.len() - k,
    {
        proof {
            effect::lemma_length_known(len, effects@, k + 1, effects@.len() as int);
        }
        if let Effect::Edit(edit) = effects[k] {
            proof {
                effect::lemma_carried(len, effects@, k + 1, edit.shifted(at as int));
            }
            at = edit.shift(at);
        }
        k += 1;
    }
    at
}

/// Motions that cross enough of the buffer to deserve a return point.
fn pushes_jump(motion: &Motion) -> (r: bool)
    ensures
        r == state::pushes_jump(motion@),
{
    matches!(
        motion,
        Motion::GotoRow
            | Motion::GotoFirstRow
            | Motion::MatchPair
            | Motion::ScreenTop
            | Motion::ScreenMiddle
            | Motion::ScreenBottom
            | Motion::ToOffset { .. }
            | Motion::Search { .. }
            | Motion::RepeatSearch { .. }
    )
}

} // verus!
