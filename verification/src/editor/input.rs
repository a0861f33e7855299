//! Feeding several keys at once, and replacing the text.

use vstd::prelude::*;
use vstd::utf8::*;

use crate::buffer;
use crate::command::Mode;
use crate::edit;
use crate::edit::Edit;
use crate::editor::stores;
use crate::editor::Editor;
use crate::effect;
use crate::effect::Effect;
use crate::grapheme;
use crate::grapheme::Bound;
use crate::key;
use crate::key::{Key, ParseError};
use crate::state;
use crate::tame;
use crate::text;
use crate::undo;

verus! {

impl Editor {
    /// Feed several keys.
    pub fn handle_keys(&mut self, sequence: &[Key]) -> (r: Vec<Effect>)
        requires
            old(self).wf(),
        ensures
            final(self).wf(),
            final(self)@ == state::all_handled(
                old(self)@,
                sequence@,
                0,
                old(self)@.replay_depth,
            ).state,
            r@ == state::all_handled(
                old(self)@,
                sequence@,
                0,
                old(self)@.replay_depth,
            ).effects,
            final(self)@.replay_depth == old(self)@.replay_depth,
            final(self)@.history.limit == old(self)@.history.limit,
            effect::leads(
                old(self)@.text.len() as int,
                r@,
                final(self)@.text.len() as int,
            ),
            !state::any_meets(
                old(self)@,
                sequence@,
                0,
                old(self)@.replay_depth,
                state::reverting_midway(),
            ) ==> state::retraces(old(self)@, final(self)@),
            old(self)@.legal() && !state::any_meets(
                old(self)@,
                sequence@,
                0,
                old(self)@.replay_depth,
                state::joining(),
            ) ==> final(self)@.legal(),
            state::sure(
                old(self)@,
                sequence@,
                0,
                old(self)@.replay_depth,
                old(self)@.legal(),
            ) ==> final(self)@.legal(),
            // under the default scheme everything typed can be taken back, unless a
            // replay steps back in the history while it has changes open
            tame::orderly(old(self)@, 0) && old(self)@.in_step() && old(self)@.history.limit
                is None && !state::any_meets(
                old(self)@,
                sequence@,
                0,
                0,
                tame::backtracking(),
            ) ==> tame::can_be_taken_back(final(self)@, old(self)@.origin()),
    {
        let ghost begin = self@;
        let ghost depth = begin.replay_depth;
        let mut effects: Vec<Effect> = Vec::new();
        let mut i: usize = 0;
        // whether the cursor is sure to be on a grapheme boundary
        let ghost mut legal = begin.legal();
        proof {
            assert(effects@ =~= Seq::<Effect>::empty());
            let whole = state::all_handled(begin, sequence@, 0, depth);
            assert(whole.effects =~= effects@ + whole.effects);
            assert(effect::followed(begin.text.len() as int, effects@) == Some(
                begin.text.len() as int,
            ));
        }
        while i < sequence.len()
            invariant
                begin == old(self)@,
                depth == begin.replay_depth,
                i <= sequence.len(),
                self.wf(),
                self@.replay_depth == depth,
                self@.history.limit == begin.history.limit,
                ({
                    let whole = state::all_handled(begin, sequence@, 0, depth);
                    let rest = state::all_handled(self@, sequence@, i as int, depth);
                    whole.state == rest.state && whole.effects == effects@ + rest.effects
                }),
                effect::leads(begin.text.len() as int, effects@, self@.text.len() as int),
                !state::any_meets(begin, sequence@, 0, depth, state::reverting_midway())
                    ==> state::retraces(begin, self@) && !state::any_meets(
                    self@,
                    sequence@,
                    i as int,
                    depth,
                    state::reverting_midway(),
                ),
                begin.legal() && !state::any_meets(
                    begin,
                    sequence@,
                    0,
                    depth,
                    state::joining(),
                ) ==> self@.legal() && !state::any_meets(
                    self@,
                    sequence@,
                    i as int,
                    depth,
                    state::joining(),
                ),
                legal ==> self@.legal(),
                state::sure(begin, sequence@, 0, depth, begin.legal()) == state::sure(
                    self@,
                    sequence@,
                    i as int,
                    depth,
                    legal,
                ),
            decreases sequence.len() - i,
        {
            let ghost sofar = effects@;
            proof {
                let key = sequence@[i as int];
                legal = state::steadied(self@, key, depth) || (legal && !state::meets(
                    self@,
                    key,
                    depth,
                    state::joining(),
                ));
            }
            let more: Vec<Effect> = self.handle_key(sequence[i]);
            stores::extend_effects(&mut effects, &more);
            i += 1;
            proof {
                let rest = state::all_handled(self@, sequence@, i as int, depth);
                assert(sofar + (more@ + rest.effects) =~= (sofar + more@) + rest.effects);
                effect::lemma_followed_append(begin.text.len() as int, sofar, more@);
            }
        }
        proof {
            let rest = state::all_handled(self@, sequence@, i as int, depth);
            assert(effects@ + rest.effects =~= effects@);
            if tame::orderly(begin, 0) && begin.in_step() && begin.history.limit is None
                && !state::any_meets(begin, sequence@, 0, 0, tame::backtracking()) {
                tame::typing_undoes_no_open_change(begin, sequence@, 0);
                tame::the_editor_stays_orderly(begin, sequence@, 0);
                tame::undo_keys_take_back(self@);
            }
        }
        effects
    }

    /// Feed a key sequence written in vi notation.
    ///
    /// # Errors
    /// If `spec` is not valid key notation; nothing is fed then.
    pub fn type_keys(&mut self, spec: &str) -> (r: Result<Vec<Effect>, ParseError>)
        requires
            old(self).wf(),
        ensures
            final(self).wf(),
            match key::parsed_keys(spec@) {
                Ok(ks) => {
                    let t = state::all_handled(old(self)@, ks, 0, old(self)@.replay_depth);
                    r is Ok && final(self)@ == t.state && r->Ok_0@ == t.effects && effect::leads(
                        old(self)@.text.len() as int,
                        r->Ok_0@,
                        final(self)@.text.len() as int,
                    )
                },
                Err(f) => r is Err && r->Err_0@ == f && final(self)@ == old(self)@,
            },
            final(self)@.replay_depth == old(self)@.replay_depth,
    {
        match key::keys(spec) {
            Ok(sequence) => Ok(self.handle_keys(sequence.as_slice())),
            Err(error) => Err(error),
        }
    }

    /// Replace the whole buffer, resetting cursor and history-independent state.
    pub fn set_text(&mut self, text: &str) -> (r: Edit)
        requires
            old(self).wf(),
            encode_utf8(text@).len() <= buffer::MAX_LEN,
        ensures
            final(self).wf(),
            final(self)@ == old(self)@.text_set(encode_utf8(text@)),
            r == edit::staged(
                old(self)@.text,
                0,
                old(self)@.text.len() as int,
                encode_utf8(text@),
            ).edit,
            final(self)@.text == encode_utf8(text@),
            state::retraces(old(self)@, final(self)@),
            final(self)@.legal(),
    {
        let ghost t = self@.text;
        let ghost new = encode_utf8(text@);
        let len: usize = self.buffer().len_bytes();
        proof {
            text::lemma_ends(t);
            encode_utf8_valid_utf8(text@);
            edit::staged_points_are_positions(t, 0, t.len() as int, new);
            assert(text::splice(t, 0, t.len() as int, new) =~= new);
            if self@.in_step() {
                undo::recording_keeps_step(
                    self@.history,
                    edit::staged(t, 0, t.len() as int, new),
                    t,
                );
            }
        }
        let edit: Edit = self.doc.replace(0..len, text);
        self.cursor = grapheme::clamp(self.doc.buffer(), 0, Bound::PastEnd);
        self.sticky = 0;
        self.anchor = None;
        self.pending.reset();
        self.mode = Mode::Normal;
        self.jumps = Vec::new();
        self.jump_at = 0;
        self.marks = stores::unset_marks();
        proof {
            reveal(state::positions_lie_in);
            assert(self@.jumps =~= Seq::<usize>::empty());
            assert(self@ =~= old(self)@.text_set(new));
        }
        edit
    }
}

} // verus!
