//! The minimal composition of a buffer and a history.
//!
//! This type exists for one reason: the `stage → record → apply` ordering that
//! [`LinearHistory`] depends on is easy to get subtly wrong. Encoding it once
//! removes the hazard.

use core::ops::Range;
use vstd::prelude::*;
use vstd::utf8::*;

use crate::buffer;
use crate::buffer::Buffer;
use crate::edit;
use crate::edit::{Change, Edit};
use crate::history;
use crate::history::{History, HistoryState, LinearHistory, Step};
use crate::text;
use crate::undo;

verus! {

/// What a [`Document`] amounts to.
#[verifier::ext_equal]
pub struct DocumentState {
    pub text: Seq<u8>,
    pub history: HistoryState,
}

impl DocumentState {
    /// A document that holds `t` and remembers nothing.
    pub open spec fn fresh(t: Seq<u8>) -> DocumentState {
        DocumentState { text: t, history: HistoryState::fresh(None) }
    }

    /// What every document keeps.
    pub open spec fn wf(self) -> bool {
        &&& valid_utf8(self.text)
        &&& self.text.len() <= buffer::MAX_LEN
        &&& self.history.wf()
    }

    /// Whether the history has seen every change that led to the text.
    pub open spec fn in_step(self) -> bool {
        undo::in_step(self.history, self.text)
    }

    /// After `a..b` was replaced by `new`.
    pub open spec fn replaced(self, a: int, b: int, new: Seq<u8>) -> DocumentState {
        let d = edit::staged(self.text, a, b, new);
        DocumentState {
            text: text::splice(self.text, a, b, new),
            history: self.history.recorded(d, self.text),
        }
    }

    /// Whether the next undo step can be applied to the text.
    pub open spec fn can_undo(self) -> bool {
        history::lands(self.text, self.history.undo_step().changes)
    }

    /// After the next undo step was applied.
    pub open spec fn undone(self) -> DocumentState {
        DocumentState {
            text: history::run(self.text, self.history.undo_step().changes),
            history: self.history.undone(),
        }
    }

    /// Whether the next redo step can be applied to the text.
    pub open spec fn can_redo(self) -> bool {
        history::lands(self.text, self.history.redo_step().changes)
    }

    /// After the next redo step was applied.
    pub open spec fn redone(self) -> DocumentState {
        DocumentState {
            text: history::run(self.text, self.history.redo_step().changes),
            history: self.history.redone(),
        }
    }
}

/// A buffer paired with a linear undo history.
///
/// Every mutating method returns the [`Edit`]s that were applied, in order, ready
/// to hand to an incremental consumer.
#[derive(Debug)]
pub struct Document {
    buffer: Buffer,
    history: LinearHistory,
}

impl View for Document {
    type V = DocumentState;

    closed spec fn view(&self) -> DocumentState {
        DocumentState { text: self.buffer@, history: self.history@ }
    }
}

impl Clone for Document {
    fn clone(&self) -> (r: Self)
        ensures
            r@ == self@,
    {
        Self { buffer: self.buffer.clone(), history: self.history.clone() }
    }
}

impl Default for Document {
    fn default() -> (r: Self)
        ensures
            r@ == DocumentState::fresh(Seq::empty()),
            r@.wf(),
            r@.in_step(),
    {
        Self::new()
    }
}

impl Document {
    /// An empty document.
    #[must_use]
    pub fn new() -> (r: Self)
        ensures
            r@ == DocumentState::fresh(Seq::empty()),
            r@.wf(),
            r@.in_step(),
    {
        let r = Self { buffer: Buffer::new(), history: LinearHistory::new() };
        proof {
            undo::fresh_history_is_in_step(None, r@.text);
        }
        r
    }

    /// A document that holds `text`.
    #[must_use]
    pub fn from_text(text: &str) -> (r: Self)
        requires
            encode_utf8(text@).len() <= buffer::MAX_LEN,
        ensures
            r@ == DocumentState::fresh(encode_utf8(text@)),
            r@.wf(),
            r@.in_step(),
    {
        let r = Self { buffer: Buffer::from_text(text), history: LinearHistory::new() };
        proof {
            undo::fresh_history_is_in_step(None, r@.text);
        }
        r
    }

    /// The text.
    #[must_use]
    pub fn buffer(&self) -> (r: &Buffer)
        ensures
            r@ == self@.text,
            self@.wf() ==> r.wf(),
    {
        &self.buffer
    }

    /// What can be undone.
    #[must_use]
    pub fn history(&self) -> (r: &LinearHistory)
        ensures
            r@ == self@.history,
    {
        &self.history
    }

    /// Mutable access, for configuration such as [`LinearHistory::set_limit`].
    pub fn history_mut(&mut self) -> (r: &mut LinearHistory)
        ensures
            r@ == old(self)@.history,
            final(self)@ == (DocumentState { text: old(self)@.text, history: final(r)@ }),
    {
        &mut self.history
    }

    /// The whole text.
    #[must_use]
    pub fn to_string(&self) -> (r: String)
        requires
            self@.wf(),
        ensures
            encode_utf8(r@) == self@.text,
    {
        self.buffer.to_string()
    }

    /// Replace `range` with `text`, recording it first so the history sees the
    /// pre-image.
    pub fn replace(&mut self, range: Range<usize>, text: &str) -> (r: Edit)
        requires
            old(self)@.wf(),
            range.start <= range.end,
            text::bound(old(self)@.text, range.start as int),
            text::bound(old(self)@.text, range.end as int),
            old(self)@.text.len() - (range.end - range.start) + encode_utf8(text@).len()
                <= buffer::MAX_LEN,
        ensures
            final(self)@ == old(self)@.replaced(
                range.start as int,
                range.end as int,
                encode_utf8(text@),
            ),
            r == edit::staged(
                old(self)@.text,
                range.start as int,
                range.end as int,
                encode_utf8(text@),
            ).edit,
            final(self)@.wf(),
            old(self)@.in_step() ==> final(self)@.in_step(),
    {
        let ghost t = self.buffer@;
        proof {
            encode_utf8_valid_utf8(text@);
            text::lemma_splice(
                t,
                range.start as int,
                range.end as int,
                encode_utf8(text@),
            );
        }
        let change: Change = self.buffer.stage_replace(range, text);
        proof {
            if old(self)@.in_step() {
                undo::recording_keeps_step(self.history@, change@, t);
            }
        }
        self.history.record(&change, &self.buffer);
        self.buffer.apply(&change);
        change.edit
    }

    /// Insert `text` at `at`.
    pub fn insert(&mut self, at: usize, text: &str) -> (r: Edit)
        requires
            old(self)@.wf(),
            text::bound(old(self)@.text, at as int),
            old(self)@.text.len() + encode_utf8(text@).len() <= buffer::MAX_LEN,
        ensures
            final(self)@ == old(self)@.replaced(at as int, at as int, encode_utf8(text@)),
            r == edit::staged(
                old(self)@.text,
                at as int,
                at as int,
                encode_utf8(text@),
            ).edit,
            final(self)@.wf(),
            old(self)@.in_step() ==> final(self)@.in_step(),
    {
        self.replace(at..at, text)
    }

    /// Delete `range`.
    pub fn delete(&mut self, range: Range<usize>) -> (r: Edit)
        requires
            old(self)@.wf(),
            range.start <= range.end,
            text::bound(old(self)@.text, range.start as int),
            text::bound(old(self)@.text, range.end as int),
        ensures
            final(self)@ == old(self)@.replaced(
                range.start as int,
                range.end as int,
                Seq::empty(),
            ),
            r == edit::staged(
                old(self)@.text,
                range.start as int,
                range.end as int,
                Seq::empty(),
            ).edit,
            final(self)@.wf(),
            old(self)@.in_step() ==> final(self)@.in_step(),
    {
        proof {
            buffer::lemma_empty_literal();
        }
        self.replace(range, "")
    }

    /// Group the changes made by `edits` into one undo step.
    ///
    /// A [`Document`] has no caret, so nothing is recorded for `undo` to restore.
    /// Callers that do have one bracket the group themselves; see
    /// [`History::begin_group`].
    pub fn grouped<T, F: FnOnce(&mut Self) -> T>(&mut self, edits: F) -> (r: T)
        requires
            old(self)@.wf(),
            old(self)@.history.depth < usize::MAX,
            forall|d: &mut Self|
                (*d)@ == (DocumentState {
                    text: old(self)@.text,
                    history: old(self)@.history.begun(None),
                }) ==> #[trigger] call_requires(edits, (d,)),
            forall|d: &mut Self, out: T|
                (*d)@ == (DocumentState {
                    text: old(self)@.text,
                    history: old(self)@.history.begun(None),
                }) && #[trigger] call_ensures(edits, (d,), out) ==> (*final(d))@.wf(),
        ensures
            exists|d: &mut Self|
                {
                    &&& (*d)@ == (DocumentState {
                        text: old(self)@.text,
                        history: old(self)@.history.begun(None),
                    })
                    &&& #[trigger] call_ensures(edits, (d,), r)
                    &&& final(self)@ == (DocumentState {
                        text: (*final(d))@.text,
                        history: (*final(d))@.history.ended(None),
                    })
                },
            final(self)@.wf(),
    {
        self.history.begin_group(None);
        let out: T = edits(self);
        self.history.end_group(None);
        out
    }

    /// Undo the most recent step and return the changes that were applied.
    pub fn undo(&mut self) -> (r: Step)
        requires
            old(self)@.wf(),
            old(self)@.can_undo(),
        ensures
            r@ == old(self)@.history.undo_step(),
            final(self)@ == old(self)@.undone(),
            final(self)@.wf(),
            old(self)@.in_step() && old(self)@.history.open.len() == 0 ==> final(self)@.in_step(),
    {
        proof {
            if self@.in_step() && self@.history.open.len() == 0 {
                undo::undoing_keeps_step(self@.history, self@.text);
            }
        }
        let step: Step = self.history.undo();
        self.apply_all(&step.changes);
        step
    }

    /// Redo the most recently undone step and return the changes that were applied.
    pub fn redo(&mut self) -> (r: Step)
        requires
            old(self)@.wf(),
            old(self)@.can_redo(),
        ensures
            r@ == old(self)@.history.redo_step(),
            final(self)@ == old(self)@.redone(),
            final(self)@.wf(),
            old(self)@.in_step() ==> final(self)@.in_step(),
    {
        proof {
            if self@.in_step() {
                undo::redoing_keeps_step(self@.history, self@.text);
            }
        }
        let step: Step = self.history.redo();
        self.apply_all(&step.changes);
        step
    }

    /// Apply changes handed back by the history. Deliberately does not `record`
    /// them: the history has already accounted for them.
    fn apply_all(&mut self, changes: &Vec<Change>)
        requires
            old(self)@.wf(),
            history::lands(old(self)@.text, history::deltas(changes@)),
        ensures
            final(self)@ == (DocumentState {
                text: history::run(old(self)@.text, history::deltas(changes@)),
                ..old(self)@
            }),
            final(self)@.wf(),
    {
        let ghost t = self.buffer@;
        let ghost ds = history::deltas(changes@);
        let mut i: usize = 0;
        proof {
            assert(ds.skip(0) =~= ds);
        }
        while i < changes.len()
            invariant
                i <= changes.len(),
                ds == history::deltas(changes@),
                self@.wf(),
                self@.history == old(self)@.history,
                history::lands(self.buffer@, ds.skip(i as int)),
                history::run(self.buffer@, ds.skip(i as int)) == history::run(t, ds),
            decreases changes.len() - i,
        {
            proof {
                assert(ds.skip(i as int).drop_first() =~= ds.skip(i + 1));
                assert(ds.skip(i as int)[0] == changes[i as int]@);
            }
            self.buffer.apply(&changes[i]);
            i += 1;
        }
    }

    /// Whether the next undo step can be applied to the text.
    ///
    /// It always can where the history kept step and no group is open with changes in
    /// it.
    #[must_use]
    pub fn undo_applies(&self) -> (r: bool)
        requires
            self@.wf(),
        ensures
            r == self@.can_undo(),
            self@.in_step() && self@.history.open.len() == 0 ==> r,
    {
        proof {
            if self@.in_step() && self@.history.open.len() == 0 {
                undo::undoing_keeps_step(self@.history, self@.text);
                undo::lemma_runs_land(self@.text, self@.history.undo_step().changes);
            }
        }
        let step: Step = self.history.peek_undo();
        self.applies(&step.changes)
    }

    /// Whether the next redo step can be applied to the text.
    ///
    /// It always can where the history kept step.
    #[must_use]
    pub fn redo_applies(&self) -> (r: bool)
        requires
            self@.wf(),
        ensures
            r == self@.can_redo(),
            self@.in_step() ==> r,
    {
        proof {
            if self@.in_step() {
                undo::redoing_keeps_step(self@.history, self@.text);
                undo::lemma_runs_land(self@.text, self@.history.redo_step().changes);
            }
        }
        let step: Step = self.history.peek_redo();
        self.applies(&step.changes)
    }

    /// Whether `changes` can be applied one after the other.
    fn applies(&self, changes: &Vec<Change>) -> (r: bool)
        requires
            self@.wf(),
        ensures
            r == history::lands(self@.text, history::deltas(changes@)),
    {
        let ghost ds = history::deltas(changes@);
        let ghost whole = history::lands(self@.text, ds);
        let mut scratch: Buffer = self.buffer.clone();
        let mut i: usize = 0;
        proof {
            assert(ds.skip(0) =~= ds);
        }
        while i < changes.len()
            invariant
                i <= changes.len(),
                ds == history::deltas(changes@),
                scratch.wf(),
                whole == history::lands(self@.text, ds),
                history::lands(scratch@, ds.skip(i as int)) == whole,
            decreases changes.len() - i,
        {
            let ghost rest = ds.skip(i as int);
            proof {
                assert(rest.drop_first() =~= ds.skip(i + 1));
                assert(rest[0] == changes[i as int]@);
            }
            let change: &Change = &changes[i];
            let a: usize = change.edit.start_byte;
            let b: usize = change.edit.old_end_byte;
            if !(a <= b && scratch.is_boundary(a) && scratch.is_boundary(b)) {
                return false;
            }
            proof {
                encode_utf8_valid_utf8(change.inserted@);
                text::lemma_splice(scratch@, a as int, b as int, change@.inserted);
            }
            let rest_len: usize = scratch.len_bytes() - (b - a);
            let new_len: usize = change.inserted.as_str().as_bytes().len();
            if new_len > buffer::MAX_LEN || rest_len > buffer::MAX_LEN - new_len {
                return false;
            }
            scratch.apply(change);
            i += 1;
        }
        proof {
            assert(ds.skip(i as int).len() == 0);
        }
        true
    }
}

} // verus!
