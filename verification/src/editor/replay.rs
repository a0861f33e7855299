//! Keys: what they resolve to, what runs, and what is remembered for replay.

use vstd::prelude::*;

use crate::command::{Command, Mode, Operator, Target};
use crate::editor;
use crate::editor::stores;
use crate::editor::Editor;
use crate::effect;
use crate::effect::Effect;
use crate::history::History;
use crate::key::Key;
use crate::keymap;
use crate::pending::Resolution;
use crate::state;
use crate::state::{EditorState, Turn};
use crate::text;
use crate::undo;

verus! {

/// Append `more` to `keys`.
fn extend_keys(keys: &mut Vec<Key>, more: &[Key])
    ensures
        final(keys)@ == old(keys)@ + more@,
{
    let mut i: usize = 0;
    proof {
        assert(keys@ =~= old(keys)@ + more@.take(0));
    }
    while i < more.len()
        invariant
            i <= more.len(),
            keys@ == old(keys)@ + more@.take(i as int),
        decreases more.len() - i,
    {
        keys.push(more[i]);
        i += 1;
        proof {
            assert(keys@ =~= old(keys)@ + more@.take(i as int));
        }
    }
    proof {
        assert(more@.take(i as int) =~= more@);
    }
}

impl Editor {
    /// Emit an effect that is not an edit.
    fn emit(&self, effect: Effect, effects: &mut Vec<Effect>)
        requires
            self.sound(),
            !(effect is Edit),
        ensures
            self.turn(final(effects)@) == self.turn(old(effects)@).emit(effect),
            state::keeps(self.turn(old(effects)@), self.turn(final(effects)@)),
    {
        effects.push(effect);
        proof {
            reveal(state::keeps);
            reveal(state::accounts);
            assert forall|len: int| #[trigger]
                effect::leads(len, old(effects)@, self@.text.len() as int) implies effect::leads(
                len,
                effects@,
                self@.text.len() as int,
            ) by {
                effect::lemma_followed_push(len, old(effects)@, effect);
            }
        }
    }

    /// Start recording a macro.
    fn record(&mut self, register: char, effects: &mut Vec<Effect>)
        requires
            old(self).sound(),
        ensures
            final(self).sound(),
            final(self).turn(final(effects)@) == old(self).turn(old(effects)@).to(
                EditorState { recording: Some((register, Seq::empty())), ..old(self)@ },
            ).emit(Effect::RecordingStarted(register)),
            state::keeps(old(self).turn(old(effects)@), final(self).turn(final(effects)@)),
            final(self)@.spare() == old(self)@.spare(),
            final(self)@.text == old(self)@.text,
            final(self)@.cursor == old(self)@.cursor,
    {
        let ghost begin = self.turn(effects@);
        self.recording = Some((register, Vec::new()));
        let ghost started = self.turn(effects@);
        self.emit(Effect::RecordingStarted(register), effects);
        proof {
            assert((started.state.recording->0).1 =~= Seq::<Key>::empty());
            state::lemma_still(begin, started);
            state::lemma_keeps_then(begin, started, self.turn(effects@));
        }
    }

    /// Remember the cursor under `name`.
    fn mark_cursor(&mut self, name: char, effects: &mut Vec<Effect>)
        requires
            old(self).sound(),
            text::bound(old(self)@.text, old(self)@.cursor),
        ensures
            final(self).sound(),
            final(self).turn(final(effects)@) == ({
                let t = old(self).turn(old(effects)@);
                match state::mark_slot(name) {
                    Some(_) => t.to(t.state.marked(name, t.state.cursor)),
                    None => t.bell(),
                }
            }),
            state::keeps(old(self).turn(old(effects)@), final(self).turn(final(effects)@)),
            final(self)@.spare() == old(self)@.spare(),
            text::bound(final(self)@.text, final(self)@.cursor),
            old(self)@.legal() ==> final(self)@.legal(),
    {
        if editor::mark_index(name).is_some() {
            self.set_mark(name, self.cursor);
            proof {
                state::lemma_still(old(self).turn(effects@), self.turn(effects@));
            }
        } else {
            self.bell(effects);
        }
    }

    /// Every command but a replay.
    fn act(&mut self, command: Command, count: Option<usize>, effects: &mut Vec<Effect>)
        requires
            old(self).sound(),
            old(self)@.spare() == 1,
            text::bound(old(self)@.text, old(self)@.cursor),
            !state::replays(command@),
            count matches Some(n) ==> n >= 1,
        ensures
            final(self).sound(),
            final(self).turn(final(effects)@) == old(self).turn(old(effects)@).acted(
                command@,
                count,
            ),
            state::accounts(old(self).turn(old(effects)@), final(self).turn(final(effects)@)),
            final(self)@.spare() == 1,
            !(command@ is Undo || command@ is Redo) ==> state::keeps(
                old(self).turn(old(effects)@),
                final(self).turn(final(effects)@),
            ),
            command@ is Redo || (command@ is Undo && (old(self)@.history.open.len() == 0 || old(
                self,
            )@.history.cursor == 0)) ==> state::retraces(old(self)@, final(self)@),
            text::bound(final(self)@.text, final(self)@.cursor),
            old(self)@.legal() && !state::joining()(old(self)@, command@) ==> final(self)@.legal(),
            state::steadies(old(self)@, command@, count) ==> final(self)@.legal(),
    {
        proof {
            reveal(Turn::acted);
        }
        let repeat: usize = count.unwrap_or(1);
        match command {
            Command::Move(motion) => self.move_by(motion, count, effects),
            Command::Operate { operator, target } => {
                self.operate_on(operator, target, count, effects);
            },
            Command::SelectObject { scope, object } => {
                self.select_object(scope, object, repeat, effects);
            },
            Command::EnterInsert(at) => self.enter_insert(at, effects),
            Command::EnterReplace => self.enter_replace(effects),
            Command::EnterVisual(kind) => self.enter_visual(kind, effects),
            Command::EnterNormal => self.enter_normal(effects),
            Command::DeleteChar { before } => self.delete_char(before, repeat, effects),
            Command::ReplaceChar(ch) => self.replace_char(ch, repeat, effects),
            Command::ChangeSurround { from, to } => self.change_surround(from, to, effects),
            Command::DeleteSurround(target) => self.delete_surround(target, effects),
            Command::SurroundSelection(delimiter) => {
                self.surround_selection(delimiter, effects);
            },
            Command::SwapCase => self.swap_case(repeat, effects),
            Command::JoinRows => {
                let times: usize = if repeat < 2 {
                    1
                } else {
                    repeat - 1
                };
                self.join_rows(times, effects);
            },
            Command::Put { before } => self.put(before, repeat, effects),
            Command::Undo => {
                self.undo(effects);
                return;
            },
            Command::Redo => {
                self.redo(effects);
                return;
            },
            Command::RecordMacro(register) => self.record(register, effects),
            Command::SetMark(name) => self.mark_cursor(name, effects),
            Command::JumpBack => self.jump_back(effects),
            Command::JumpForward => self.jump_forward(effects),
            Command::Scroll(scroll) => self.scroll(scroll, effects),
            Command::CommandPrompt => self.emit(Effect::CommandPrompt, effects),
            Command::InsertText(ch) => self.type_char(ch, effects),
            Command::InsertNewline => self.type_newline(effects),
            Command::DeleteBack => {
                let start: usize = self.prev_position();
                self.delete_back_to(start, effects);
            },
            Command::DeleteWordBack => self.delete_word_back(effects),
            Command::Repeat => {
                assert(false);
            },
            Command::PlayMacro(_) => {
                assert(false);
            },
        }
        proof {
            state::lemma_keeps_accounts(old(self).turn(old(effects)@), self.turn(effects@));
        }
    }
}

impl Editor {
    /// Track what `.` should replay.
    ///
    /// Commands that enter insert mode open a *session*: keys accumulate until the
    /// mode ends, so `.` after `ciwfoo<Esc>` replays the typed text too. One-shot
    /// changes record immediately.
    fn note_change(&mut self, command: &Command, consumed: &[Key])
        requires
            old(self).sound(),
        ensures
            final(self).sound(),
            final(self)@ == old(self)@.noted(command@, consumed@),
            final(self)@ == (EditorState {
                visual_keys: final(self)@.visual_keys,
                change_keys: final(self)@.change_keys,
                last_change: final(self)@.last_change,
                ..old(self)@
            }),
    {
        proof {
            reveal(EditorState::noted);
        }
        // A visual operator is only half of what happened: replaying a bare `>`
        // would leave an operator pending for whatever gets typed next. The keys
        // that opened and shaped the selection go in front of it, so `Vj>` repeats
        // as `Vj>`: the same two rows, from wherever the caret now is.
        let selection: bool = matches!(
            command,
            Command::Operate { target: Target::Selection, .. } | Command::SurroundSelection(_)
        );
        let mut script: Vec<Key> = Vec::new();
        if selection {
            core::mem::swap(&mut script, &mut self.visual_keys);
        }
        extend_keys(&mut script, consumed);
        proof {
            assert(script@ =~= if selection {
                old(self)@.visual_keys + consumed@
            } else {
                consumed@
            });
            if selection {
                assert(self.visual_keys@ =~= Seq::<Key>::empty());
            }
        }
        match command {
            Command::EnterInsert(_) | Command::EnterReplace | Command::Operate {
                operator: Operator::Change,
                ..
            } => {
                self.change_keys = Some(script);
            },
            Command::EnterNormal => {
                let taken: Option<Vec<Key>> = self.change_keys.take();
                if let Some(keys) = taken {
                    self.last_change = keys;
                }
            },
            Command::Operate { operator: Operator::Yank, .. } => {},
            // One-shot changes record immediately, but only outside a session,
            // whose keys are already accumulating.
            Command::Operate { .. }
            | Command::DeleteChar { .. }
            | Command::ReplaceChar(_)
            | Command::ChangeSurround { .. }
            | Command::DeleteSurround(_)
            | Command::SurroundSelection(_)
            | Command::JoinRows
            | Command::Put { .. }
            | Command::SwapCase => {
                if self.change_keys.is_none() {
                    self.last_change = script;
                }
            },
            _ => {},
        }
    }

    /// Everything typed since the selection opened, so that `.` can replay the
    /// shape and not just the operator. The operator's own key is not among them:
    /// by the time it runs, visual mode is over.
    fn note_shape(&mut self, was_visual: bool, consumed: &[Key])
        requires
            old(self).sound(),
        ensures
            final(self).sound(),
            final(self)@ == old(self)@.shaped(was_visual, consumed@),
            final(self)@ == (EditorState { visual_keys: final(self)@.visual_keys, ..old(self)@ }),
    {
        proof {
            reveal(EditorState::shaped);
        }
        if self.mode.is_visual() {
            if !was_visual {
                self.visual_keys = Vec::new();
            }
            extend_keys(&mut self.visual_keys, consumed);
            proof {
                if !was_visual {
                    assert(self.visual_keys@ =~= consumed@);
                }
            }
        }
    }

    /// Record a raw key, not what it resolves to. Replayed keys are excluded from
    /// a recording, so `@a` inside one stores `@a` rather than its expansion.
    fn hear(&mut self, key: Key)
        requires
            old(self).sound(),
        ensures
            final(self).sound(),
            final(self)@ == old(self)@.heard(key),
            final(self)@ == (EditorState {
                recording: final(self)@.recording,
                change_keys: final(self)@.change_keys,
                ..old(self)@
            }),
    {
        proof {
            reveal(EditorState::heard);
        }
        if self.replay_depth == 0 {
            let taken: Option<(char, Vec<Key>)> = self.recording.take();
            if let Some((register, keys)) = taken {
                let mut script: Vec<Key> = keys;
                script.push(key);
                self.recording = Some((register, script));
            }
        }
        let taken: Option<Vec<Key>> = self.change_keys.take();
        if let Some(keys) = taken {
            let mut script: Vec<Key> = keys;
            script.push(key);
            self.change_keys = Some(script);
        }
    }

    /// The keys a replay command plays, if any.
    fn script_for(&self, command: &Command) -> (r: Option<Vec<Key>>)
        ensures
            match r {
                Some(script) => state::script_of(self@, command@) == Some(script@),
                None => state::script_of(self@, command@) is None,
            },
    {
        match command {
            Command::Repeat => {
                if self.last_change.len() == 0 {
                    None
                } else {
                    Some(keymap::clone_keys(self.last_change.as_slice()))
                }
            },
            Command::PlayMacro(register) => stores::script_in(&self.macros, *register),
            _ => None,
        }
    }

    fn dispatch(&mut self, command: Command, count: Option<usize>) -> (r: Vec<Effect>)
        requires
            old(self).sound(),
            old(self)@.spare() == 1,
            text::bound(old(self)@.text, old(self)@.cursor),
            count matches Some(n) ==> n >= 1,
        ensures
            final(self).sound(),
            final(self).turn(r@) == state::dispatched(
                old(self)@,
                command@,
                count,
                old(self)@.replay_depth,
            ),
            state::accounts(old(self).turn(Seq::empty()), final(self).turn(r@)),
            final(self)@.spare() == 1,
            text::bound(final(self)@.text, final(self)@.cursor),
            old(self)@.legal() && !state::runs_any(
                old(self)@,
                command@,
                count,
                old(self)@.replay_depth,
                state::joining(),
            ) ==> final(self)@.legal(),
            state::steadies(old(self)@, command@, count) ==> final(self)@.legal(),
            !state::runs_any(
                old(self)@,
                command@,
                count,
                old(self)@.replay_depth,
                state::reverting_midway(),
            ) ==> state::retraces(old(self)@, final(self)@),
            !state::runs_any(
                old(self)@,
                command@,
                count,
                old(self)@.replay_depth,
                state::reverting(),
            ) ==> state::keeps(old(self).turn(Seq::empty()), final(self).turn(r@)),
        decreases 65 - old(self)@.replay_depth, 1int,
    {
        let mut effects: Vec<Effect> = Vec::new();
        proof {
            assert(effects@ =~= Seq::<Effect>::empty());
        }
        if !matches!(command, Command::Repeat | Command::PlayMacro(_)) {
            self.act(command, count, &mut effects);
            proof {
                reveal(state::keeps);
            }
            return effects;
        }
        let script: Vec<Key> = match self.script_for(&command) {
            None => {
                self.bell(&mut effects);
                proof {
                    reveal(state::keeps);
                }
                return effects;
            },
            Some(script) => script,
        };
        if self.replay_depth >= state::MAX_REPLAY_DEPTH {
            self.bell(&mut effects);
            proof {
                reveal(state::keeps);
            }
            return effects;
        }
        self.replay(&script, count.unwrap_or(1))
    }

    fn replay(&mut self, script: &Vec<Key>, times: usize) -> (r: Vec<Effect>)
        requires
            old(self).sound(),
            old(self)@.spare() == 1,
            text::bound(old(self)@.text, old(self)@.cursor),
            old(self)@.replay_depth < state::MAX_REPLAY_DEPTH,
        ensures
            final(self).sound(),
            ({
                let d = old(self)@.replay_depth;
                let inner = state::replayed(
                    EditorState { replay_depth: d + 1, ..old(self)@ },
                    script@,
                    times as int,
                    0,
                    d + 1,
                );
                final(self).turn(r@) == inner.to(
                    EditorState { replay_depth: d, ..inner.state },
                )
            }),
            state::accounts(old(self).turn(Seq::empty()), final(self).turn(r@)),
            final(self)@.spare() == 1,
            text::bound(final(self)@.text, final(self)@.cursor),
            old(self)@.legal() && !state::replays_any(
                EditorState { replay_depth: old(self)@.replay_depth + 1, ..old(self)@ },
                script@,
                times as int,
                0,
                old(self)@.replay_depth + 1,
                state::joining(),
            ) ==> final(self)@.legal(),
            ({
                let d = old(self)@.replay_depth;
                let s = EditorState { replay_depth: d + 1, ..old(self)@ };
                &&& !state::replays_any(s, script@, times as int, 0, d + 1, state::reverting_midway())
                    ==> state::retraces(old(self)@, final(self)@)
                &&& !state::replays_any(s, script@, times as int, 0, d + 1, state::reverting())
                    ==> state::keeps(old(self).turn(Seq::empty()), final(self).turn(r@))
            }),
        decreases 65 - old(self)@.replay_depth, 0int,
    {
        let ghost begin = self.turn(Seq::empty());
        self.replay_depth += 1;
        let effects: Vec<Effect> = self.feed_times(script, times);
        self.replay_depth -= 1;
        proof {
            reveal(state::keeps);
            reveal(state::accounts);
            assert forall|len: int| #[trigger]
                effect::leads(
                    len,
                    begin.effects,
                    begin.state.text.len() as int,
                ) implies effect::leads(len, effects@, self@.text.len() as int) by {
                assert(effect::followed(len, Seq::<Effect>::empty()) == Some(len));
            }
        }
        effects
    }

    /// Feed `script` `times` times, inside a replay.
    fn feed_times(&mut self, script: &Vec<Key>, times: usize) -> (r: Vec<Effect>)
        requires
            old(self).wf(),
            old(self)@.replay_depth >= 1,
        ensures
            final(self).wf(),
            final(self).turn(r@) == state::replayed(
                old(self)@,
                script@,
                times as int,
                0,
                old(self)@.replay_depth,
            ),
            final(self)@.replay_depth == old(self)@.replay_depth,
            final(self)@.history.limit == old(self)@.history.limit,
            effect::leads(
                old(self)@.text.len() as int,
                r@,
                final(self)@.text.len() as int,
            ),
            !state::replays_any(
                old(self)@,
                script@,
                times as int,
                0,
                old(self)@.replay_depth,
                state::reverting_midway(),
            ) ==> state::retraces(old(self)@, final(self)@),
            !state::replays_any(
                old(self)@,
                script@,
                times as int,
                0,
                old(self)@.replay_depth,
                state::reverting(),
            ) ==> state::retraces(old(self)@, final(self)@) && (old(self)@.in_step()
                ==> final(self)@.settled() == old(self)@.settled()),
            old(self)@.legal() && !state::replays_any(
                old(self)@,
                script@,
                times as int,
                0,
                old(self)@.replay_depth,
                state::joining(),
            ) ==> final(self)@.legal(),
        decreases 65 - old(self)@.replay_depth, 4int,
    {
        let ghost begin = self@;
        let ghost depth = begin.replay_depth;
        let mut effects: Vec<Effect> = Vec::new();
        let mut left: usize = times;
        let mut i: usize = 0;
        proof {
            assert(effects@ =~= Seq::<Effect>::empty());
            let whole = state::replayed(begin, script@, times as int, 0, depth);
            assert(whole.effects =~= effects@ + whole.effects);
            assert(effect::followed(begin.text.len() as int, effects@) == Some(
                begin.text.len() as int,
            ));
        }
        while left > 0 && script.len() > 0
            invariant
                begin == old(self)@,
                depth == begin.replay_depth,
                depth >= 1,
                i <= script.len(),
                self.wf(),
                self@.replay_depth == depth,
                self@.history.limit == begin.history.limit,
                ({
                    let whole = state::replayed(begin, script@, times as int, 0, depth);
                    let rest = state::replayed(self@, script@, left as int, i as int, depth);
                    whole.state == rest.state && whole.effects == effects@ + rest.effects
                }),
                effect::leads(begin.text.len() as int, effects@, self@.text.len() as int),
                !state::replays_any(begin, script@, times as int, 0, depth, state::reverting_midway())
                    ==> state::retraces(begin, self@) && !state::replays_any(
                    self@,
                    script@,
                    left as int,
                    i as int,
                    depth,
                    state::reverting_midway(),
                ),
                !state::replays_any(begin, script@, times as int, 0, depth, state::reverting())
                    ==> state::retraces(begin, self@) && (begin.in_step() ==> self@.settled()
                    == begin.settled()) && !state::replays_any(
                    self@,
                    script@,
                    left as int,
                    i as int,
                    depth,
                    state::reverting(),
                ),
                begin.legal() && !state::replays_any(
                    begin,
                    script@,
                    times as int,
                    0,
                    depth,
                    state::joining(),
                ) ==> self@.legal() && !state::replays_any(
                    self@,
                    script@,
                    left as int,
                    i as int,
                    depth,
                    state::joining(),
                ),
            decreases left, script.len() - i,
        {
            if i == script.len() {
                i = 0;
                left -= 1;
            } else {
                let ghost was = self@;
                let ghost sofar = effects@;
                let more: Vec<Effect> = self.handle_key(script[i]);
                stores::extend_effects(&mut effects, &more);
                i += 1;
                proof {
                    let rest = state::replayed(self@, script@, left as int, i as int, depth);
                    assert(sofar + (more@ + rest.effects) =~= (sofar + more@) + rest.effects);
                    effect::lemma_followed_append(begin.text.len() as int, sofar, more@);
                }
            }
        }
        proof {
            let rest = state::replayed(self@, script@, left as int, i as int, depth);
            assert(effects@ + rest.effects =~= effects@);
        }
        effects
    }

    /// Every command runs inside an undo group, bracketed by the caret on either
    /// side so undo and redo can put it back where the user was.
    ///
    /// Groups nest, so this is safe while an insert session's group is already
    /// open: the inner begin/end pair changes nothing and the session still
    /// collapses to one step, and the caret recorded is the one from before the
    /// session opened, which is what makes undoing an `o` land where you pressed
    /// it. An empty group is never pushed, so non-editing commands cost nothing.
    fn run(&mut self, command: Command, count: Option<usize>) -> (r: Vec<Effect>)
        requires
            old(self).wf(),
            count matches Some(n) ==> n >= 1,
        ensures
            final(self).wf(),
            final(self).turn(r@) == state::ran(
                old(self)@,
                command@,
                count,
                old(self)@.replay_depth,
            ),
            final(self)@.replay_depth == old(self)@.replay_depth,
            final(self)@.history.limit == old(self)@.history.limit,
            effect::leads(
                old(self)@.text.len() as int,
                r@,
                final(self)@.text.len() as int,
            ),
            ({
                let d = old(self)@.replay_depth;
                let begun = EditorState {
                    history: old(self)@.history.begun(Some(old(self)@.cursor as usize)),
                    ..old(self)@
                };
                state::undoes(
                    old(self)@,
                    final(self)@,
                    state::runs_any(begun, command@, count, d, state::reverting_midway()),
                    state::runs_any(begun, command@, count, d, state::reverting()),
                )
            }),
            ({
                let begun = EditorState {
                    history: old(self)@.history.begun(Some(old(self)@.cursor as usize)),
                    ..old(self)@
                };
                old(self)@.legal() && !state::runs_any(
                    begun,
                    command@,
                    count,
                    old(self)@.replay_depth,
                    state::joining(),
                ) ==> final(self)@.legal()
            }),
            state::steadies(old(self)@, command@, count) ==> final(self)@.legal(),
        decreases 65 - old(self)@.replay_depth, 2int,
    {
        let ghost begin = self@;
        let before: usize = self.cursor;
        self.doc.history_mut().begin_group(Some(before));
        let ghost begun = self@;
        proof {
            assert(state::steadies(begin, command@, count) == state::steadies(
                begun,
                command@,
                count,
            ));
            if begin.in_step() {
                undo::beginning_a_group_keeps_step(begin.history, Some(before), begin.text);
            }
        }
        let effects: Vec<Effect> = self.dispatch(command, count);
        proof {
            reveal(state::accounts);
            reveal(state::keeps);
            assert(effect::followed(begin.text.len() as int, Seq::<Effect>::empty()) == Some(
                begin.text.len() as int,
            ));
            assert(effect::leads(
                begin.text.len() as int,
                Seq::<Effect>::empty(),
                begin.text.len() as int,
            ));
            assert(effect::leads(
                begin.text.len() as int,
                effects@,
                self@.text.len() as int,
            ));
        }
        let ghost ran = self@;
        self.remember_change(&effects);
        let ghost marked = self@;
        let after: usize = self.cursor;
        proof {
            if ran.in_step() {
                undo::ending_a_group_keeps_step(marked.history, Some(after), marked.text);
            }
        }
        self.doc.history_mut().end_group(Some(after));
        effects
    }

    /// Feed one key.
    pub fn handle_key(&mut self, key: Key) -> (r: Vec<Effect>)
        requires
            old(self).wf(),
        ensures
            final(self).wf(),
            final(self)@ == state::handled(old(self)@, key, old(self)@.replay_depth).state,
            r@ == state::handled(old(self)@, key, old(self)@.replay_depth).effects,
            final(self)@.replay_depth == old(self)@.replay_depth,
            final(self)@.history.limit == old(self)@.history.limit,
            effect::leads(
                old(self)@.text.len() as int,
                r@,
                final(self)@.text.len() as int,
            ),
            state::undoes(
                old(self)@,
                final(self)@,
                state::meets(old(self)@, key, old(self)@.replay_depth, state::reverting_midway()),
                state::meets(old(self)@, key, old(self)@.replay_depth, state::reverting()),
            ),
            old(self)@.legal() && !state::meets(
                old(self)@,
                key,
                old(self)@.replay_depth,
                state::joining(),
            ) ==> final(self)@.legal(),
            state::steadied(old(self)@, key, old(self)@.replay_depth) ==> final(self)@.legal(),
        decreases 65 - old(self)@.replay_depth, 3int,
    {
        let ghost begin = self@;
        proof {
            assert(effect::followed(begin.text.len() as int, Seq::<Effect>::empty()) == Some(
                begin.text.len() as int,
            ));
        }
        // A bare `q` stops recording, so it must be caught before the parser can
        // treat it as "await a register". Recording is editor state, which is why
        // the parser cannot decide this.
        if self.replay_depth == 0 && self.mode == Mode::Normal && self.pending.is_idle() && key
            == Key::char('q') {
            let taken: Option<(char, Vec<Key>)> = self.recording.take();
            if let Some((register, script)) = taken {
                stores::put_script(&mut self.macros, register, script);
                let mut effects: Vec<Effect> = Vec::new();
                effects.push(Effect::RecordingStopped(register));
                proof {
                    assert(effects@ =~= seq![Effect::RecordingStopped(register)]);
                    effect::lemma_followed_push(
                        begin.text.len() as int,
                        Seq::empty(),
                        Effect::RecordingStopped(register),
                    );
                    lemma_no_change(begin, self@);
                }
                return effects;
            }
        }
        self.hear(key);
        let mode: Mode = self.mode;
        let resolution: Resolution = self.pending.feed(key, mode, &self.keymap);
        let ghost fed = self@;
        match resolution {
            Resolution::Pending | Resolution::Cancelled { .. } => {
                let effects: Vec<Effect> = Vec::new();
                proof {
                    assert(effects@ =~= Seq::<Effect>::empty());
                    lemma_no_change(begin, self@);
                }
                effects
            },
            Resolution::Rejected { .. } => {
                let mut effects: Vec<Effect> = Vec::new();
                effects.push(Effect::Bell);
                proof {
                    assert(effects@ =~= seq![Effect::Bell]);
                    effect::lemma_followed_push(
                        begin.text.len() as int,
                        Seq::empty(),
                        Effect::Bell,
                    );
                    lemma_no_change(begin, self@);
                }
                effects
            },
            Resolution::Command { command, count, keys: consumed } => {
                let was_visual: bool = self.mode.is_visual();
                proof {
                    reveal(EditorState::heard);
                    assert(state::steadies(begin, command@, count) == state::steadies(
                        fed,
                        command@,
                        count,
                    ));
                }
                let effects: Vec<Effect> = self.run(command.clone(), count);
                let ghost ran = self@;
                self.note_shape(was_visual, consumed.as_slice());
                self.note_change(&command, consumed.as_slice());
                effects
            },
        }
    }
}

/// Where neither the text nor the history changed, nothing has to be taken back.
proof fn lemma_no_change(s: EditorState, t: EditorState)
    requires
        t.text == s.text,
        t.history == s.history,
    ensures
        state::retraces(s, t),
        s.history.wf() ==> state::one_step(s, t),
        s.history.wf() ==> state::undoes(s, t, false, false),
{
    if s.history.depth == 0 && s.history.wf() {
        undo::lemma_nothing_open(s.history, s.text);
    }
}

} // verus!
