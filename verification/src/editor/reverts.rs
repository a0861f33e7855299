//! Undo and redo.

use vstd::prelude::*;
use vstd::utf8::*;

use crate::buffer;
use crate::edit::{Delta, Edit};
use crate::editor::Editor;
use crate::effect;
use crate::effect::Effect;
use crate::grapheme;
use crate::grapheme::Bound;
use crate::history;
use crate::history::{HistoryState, Step};
use crate::state;
use crate::state::{EditorState, Turn};
use crate::text;
use crate::undo;

verus! {

/// One change of a run: it can be applied to the text that those before it lead to.
proof fn lemma_run_step(t: Seq<u8>, ds: Seq<Delta>, i: int)
    requires
        history::lands(t, ds),
        0 <= i < ds.len(),
    ensures
        ds[i].reaches(history::run(t, ds.take(i))),
        history::run(t, ds.take(i + 1)) == ds[i].applied(history::run(t, ds.take(i))),
        history::run(t, ds.take(i + 1)).len() <= buffer::MAX_LEN,
{
    let a = ds.take(i);
    let b = ds.skip(i);
    assert(ds =~= a + b);
    undo::lemma_run_split(t, a, b);
    let one = seq![ds[i]];
    assert(ds.take(i + 1) =~= a + one);
    undo::lemma_run_split(t, a, one);
    assert(one.drop_first() =~= Seq::<Delta>::empty());
    assert(b[0] == ds[i]);
    reveal_with_fuel(history::run, 2);
}

/// Every change of an undo or redo step is sized.
proof fn lemma_steps_sized(h: HistoryState)
    requires
        h.wf(),
    ensures
        history::all_sized(h.undo_step().changes),
        history::all_sized(h.redo_step().changes),
{
    if h.cursor > 0 {
        let ds = h.groups[h.cursor - 1].changes;
        let back = h.undo_step().changes;
        assert forall|i: int| 0 <= i < back.len() implies (#[trigger] back[i]).sized() by {
            assert(ds[ds.len() - 1 - i].sized());
        }
    }
}

/// A change that can be applied and is sized takes every position in the text to one in the
/// text after it, and its effect accounts for the difference.
proof fn lemma_reported(s: EditorState, d: Delta, t: Seq<u8>, len: int, effects: Seq<Effect>)
    requires
        d.reaches(t),
        d.sized(),
        d.applied(t).len() <= buffer::MAX_LEN,
        state::positions_lie_in(t.len() as int, s.jumps, s.jump_at, s.marks),
    ensures
        ({
            let n = s.positions_shifted(d.edit);
            state::positions_lie_in(d.applied(t).len() as int, n.jumps, n.jump_at, n.marks)
        }),
        forall|i: int|
            0 <= i < s.jumps.len() ==> d.edit.shifted(#[trigger] s.jumps[i] as int)
                <= usize::MAX,
        forall|i: int|
            0 <= i < s.marks.len() ==> (#[trigger] s.marks[i] matches Some(m) ==> d.edit.shifted(
                m as int,
            ) <= usize::MAX),
        effect::leads(len, effects, t.len() as int) ==> effect::leads(
            len,
            effects.push(Effect::Edit(d.edit)),
            d.applied(t).len() as int,
        ),
{
    reveal(state::positions_lie_in);
    effect::lemma_followed_push(len, effects, Effect::Edit(d.edit));
    assert(d.applied(t).len() == t.len() - d.removed.len() + d.inserted.len());
}

impl Editor {
    /// Whether the editor is sound but for its positions, which lie in a text of
    /// `len` bytes.
    closed spec fn sound_before(&self, len: int) -> bool {
        &&& self.keymap.wf()
        &&& valid_utf8(self@.text)
        &&& self@.text.len() <= buffer::MAX_LEN
        &&& self@.history.wf()
        &&& self@.pending.wf()
        &&& 0 <= self@.replay_depth <= state::MAX_REPLAY_DEPTH
        &&& state::positions_lie_in(len, self@.jumps, self@.jump_at, self@.marks)
    }

    /// Report the changes of a step that led from `before` to the text, and carry
    /// every remembered position through them.
    fn report(&mut self, step: &Step, Ghost(before): Ghost<Seq<u8>>, effects: &mut Vec<Effect>)
        requires
            old(self).sound_before(before.len() as int),
            history::lands(before, step@.changes),
            history::run(before, step@.changes) == old(self)@.text,
            history::all_sized(step@.changes),
        ensures
            final(self).sound(),
            final(self).turn(final(effects)@) == old(self).turn(old(effects)@).reported(
                step@.changes,
                step@.changes.len() as int,
            ),
            final(self)@.text == old(self)@.text,
            final(self)@.history == old(self)@.history,
            final(self)@.replay_depth == old(self)@.replay_depth,
            final(self)@.insert_group == old(self)@.insert_group,
            final(self)@.cursor == old(self)@.cursor,
            forall|len: int| #[trigger]
                effect::leads(len, old(effects)@, before.len() as int) ==> effect::leads(
                    len,
                    final(effects)@,
                    final(self)@.text.len() as int,
                ),
    {
        let ghost ds = step@.changes;
        let ghost begin = self.turn(effects@);
        let mut i: usize = 0;
        proof {
            assert(ds.take(0) =~= Seq::<Delta>::empty());
        }
        while i < step.changes.len()
            invariant
                i <= step.changes.len(),
                ds == step@.changes,
                begin == old(self).turn(old(effects)@),
                history::lands(before, ds),
                history::all_sized(ds),
                self.sound_before(history::run(before, ds.take(i as int)).len() as int),
                self.turn(effects@) == begin.reported(ds, i as int),
                self@.text == begin.state.text,
                self@.history == begin.state.history,
                self@.replay_depth == begin.state.replay_depth,
                self@.insert_group == begin.state.insert_group,
                self@.cursor == begin.state.cursor,
                forall|len: int| #[trigger]
                    effect::leads(len, begin.effects, before.len() as int) ==> effect::leads(
                        len,
                        effects@,
                        history::run(before, ds.take(i as int)).len() as int,
                    ),
            decreases step.changes.len() - i,
        {
            let edit: Edit = step.changes[i].edit;
            let ghost here = history::run(before, ds.take(i as int));
            let ghost d = ds[i as int];
            let ghost was = effects@;
            proof {
                lemma_run_step(before, ds, i as int);
                assert(d.sized());
                assert forall|len: int| #[trigger]
                    effect::leads(len, begin.effects, before.len() as int) implies effect::leads(
                    len,
                    was.push(Effect::Edit(d.edit)),
                    d.applied(here).len() as int,
                ) by {
                    lemma_reported(self@, d, here, len, was);
                }
                lemma_reported(self@, d, here, 0, was);
            }
            self.shift_positions(edit);
            effects.push(Effect::Edit(edit));
            i += 1;
        }
        proof {
            assert(ds.take(i as int) =~= ds);
            assert(begin.effects == old(effects)@);
        }
    }

    /// Apply the outcome of an undo or redo.
    ///
    /// The caret goes back to where the history says it was. Failing that (a change
    /// recorded outside a group) fall back to the last edit's site, which is at
    /// least where the text moved.
    fn revert(&mut self, step: &Step, Ghost(before): Ghost<Seq<u8>>, effects: &mut Vec<Effect>)
        requires
            old(self).sound_before(before.len() as int),
            history::lands(before, step@.changes),
            history::run(before, step@.changes) == old(self)@.text,
            history::all_sized(step@.changes),
            text::bound(before, old(self)@.cursor),
        ensures
            grapheme::rests(before, old(self)@.cursor, Bound::PastEnd) ==> final(self)@.legal(),
            final(self).sound(),
            final(self).turn(final(effects)@) == old(self).turn(old(effects)@).reverted(step@),
            final(self)@.text == old(self)@.text,
            final(self)@.history == old(self)@.history,
            final(self)@.replay_depth == old(self)@.replay_depth,
            final(self)@.insert_group == old(self)@.insert_group,
            text::bound(final(self)@.text, final(self)@.cursor),
            forall|len: int| #[trigger]
                effect::leads(len, old(effects)@, before.len() as int) ==> effect::leads(
                    len,
                    final(effects)@,
                    final(self)@.text.len() as int,
                ),
    {
        proof {
            reveal(Turn::reverted);
        }
        if step.is_empty() {
            effects.push(Effect::Bell);
            proof {
                assert forall|len: int| #[trigger]
                    effect::leads(len, old(effects)@, before.len() as int) implies effect::leads(
                    len,
                    effects@,
                    before.len() as int,
                ) by {
                    effect::lemma_followed_push(len, old(effects)@, Effect::Bell);
                }
            }
            return;
        }
        self.report(step, Ghost(before), effects);
        let at: usize = match step.cursor {
            Some(at) => at,
            None => step.changes[step.changes.len() - 1].edit.start_byte,
        };
        self.place_cursor(at);
    }

    /// `u`.
    pub(crate) fn undo(&mut self, effects: &mut Vec<Effect>)
        requires
            old(self).sound(),
            text::bound(old(self)@.text, old(self)@.cursor),
        ensures
            final(self).sound(),
            final(self).turn(final(effects)@) == old(self).turn(old(effects)@).undone(),
            state::accounts(old(self).turn(old(effects)@), final(self).turn(final(effects)@)),
            final(self)@.spare() == old(self)@.spare(),
            old(self)@.history.open.len() == 0 || old(self)@.history.cursor == 0
                ==> state::retraces(old(self)@, final(self)@),
            text::bound(final(self)@.text, final(self)@.cursor),
            old(self)@.legal() ==> final(self)@.legal(),
    {
        proof {
            reveal(Turn::undone);
            lemma_steps_sized(self@.history);
        }
        if !self.doc.undo_applies() {
            self.bell(effects);
            proof {
                reveal(state::keeps);
            }
            return;
        }
        let ghost before = self@.text;
        proof {
            if self@.in_step() && self@.history.open.len() == 0 {
                undo::undoing_keeps_step(self@.history, before);
            }
        }
        let step: Step = self.doc.undo();
        self.revert(&step, Ghost(before), effects);
        proof {
            reveal(state::accounts);
        }
    }

    /// `<C-r>`.
    pub(crate) fn redo(&mut self, effects: &mut Vec<Effect>)
        requires
            old(self).sound(),
            text::bound(old(self)@.text, old(self)@.cursor),
        ensures
            final(self).sound(),
            final(self).turn(final(effects)@) == old(self).turn(old(effects)@).redone(),
            state::accounts(old(self).turn(old(effects)@), final(self).turn(final(effects)@)),
            final(self)@.spare() == old(self)@.spare(),
            state::retraces(old(self)@, final(self)@),
            text::bound(final(self)@.text, final(self)@.cursor),
            old(self)@.legal() ==> final(self)@.legal(),
    {
        proof {
            reveal(Turn::redone);
            lemma_steps_sized(self@.history);
        }
        if !self.doc.redo_applies() {
            self.bell(effects);
            proof {
                reveal(state::keeps);
            }
            return;
        }
        let ghost before = self@.text;
        proof {
            if self@.in_step() {
                undo::redoing_keeps_step(self@.history, before);
            }
        }
        let step: Step = self.doc.redo();
        self.revert(&step, Ghost(before), effects);
        proof {
            reveal(state::accounts);
        }
    }
}

} // verus!
