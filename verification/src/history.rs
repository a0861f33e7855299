//! Undo, as a swappable policy over the change stream.
//!
//! Nothing here knows what a rope is, and [`Buffer`] knows nothing about any of
//! it. The only currency is [`Change`], which carries the text it displaced and is
//! therefore self-inverting.
//!
//! That seam is what makes vi's `U` expressible: [`Edit::is_single_row`] and
//! `start_point.row` say which row a change belonged to, so a line-scoped snapshot
//! is cheap bookkeeping; see [`LinearHistory::undo_row`].
//!
//! [`Edit::is_single_row`]: crate::Edit::is_single_row

use core::ops::Range;
use vstd::prelude::*;
use vstd::utf8::*;

use crate::buffer;
use crate::buffer::Buffer;
use crate::edit;
use crate::edit::{Change, Delta};
use crate::text;

verus! {

// ---------------------------------------------------------------------------
// the model
// ---------------------------------------------------------------------------

/// What a run of changes amounts to.
pub open spec fn deltas(changes: Seq<Change>) -> Seq<Delta> {
    changes.map_values(|c: Change| c@)
}

/// The deltas that undo `ds`: each inverted, last first.
pub open spec fn inverses(ds: Seq<Delta>) -> Seq<Delta> {
    Seq::new(ds.len(), |i: int| ds[ds.len() - 1 - i].inverse())
}

/// Whether `ds` can be applied to `t` one after the other.
pub open spec fn lands(t: Seq<u8>, ds: Seq<Delta>) -> bool
    decreases ds.len(),
{
    ds.len() == 0 || {
        &&& ds[0].reaches(t)
        &&& ds[0].applied(t).len() <= buffer::MAX_LEN
        &&& lands(ds[0].applied(t), ds.drop_first())
    }
}

/// Whether each of `ds`, applied to `t` one after the other, displaces the text it
/// expects to.
pub open spec fn runs(t: Seq<u8>, ds: Seq<Delta>) -> bool
    decreases ds.len(),
{
    ds.len() == 0 || {
        &&& ds[0].fits(t)
        &&& ds[0].applied(t).len() <= buffer::MAX_LEN
        &&& runs(ds[0].applied(t), ds.drop_first())
    }
}

/// `t` after `ds` were applied to it one after the other.
pub open spec fn run(t: Seq<u8>, ds: Seq<Delta>) -> Seq<u8>
    decreases ds.len(),
{
    if ds.len() == 0 {
        t
    } else {
        run(ds[0].applied(t), ds.drop_first())
    }
}

/// Whether every delta's geometry agrees with its texts.
pub open spec fn all_sized(ds: Seq<Delta>) -> bool {
    forall|i: int| 0 <= i < ds.len() ==> (#[trigger] ds[i]).sized()
}

/// One undo step: the changes it applied, bracketed by the caret on either side.
#[verifier::ext_equal]
pub struct GroupState {
    pub changes: Seq<Delta>,
    pub before: Option<usize>,
    pub after: Option<usize>,
}

/// What [`Step`] amounts to.
#[verifier::ext_equal]
pub struct StepState {
    pub changes: Seq<Delta>,
    pub cursor: Option<usize>,
}

/// The step that does nothing.
pub open spec fn no_step() -> StepState {
    StepState { changes: Seq::empty(), cursor: None }
}

/// A row and the content it had before the current run of changes on it.
#[verifier::ext_equal]
pub struct RowState {
    pub row: usize,
    pub content: Seq<u8>,
}

impl RowState {
    /// The content of a row holds no line feed.
    pub open spec fn wf(self) -> bool {
        &&& self.content.len() <= buffer::MAX_LEN
        &&& forall|i: int| 0 <= i < self.content.len() ==> self.content[i] != 10u8
        &&& valid_utf8(self.content)
    }
}

/// What a [`LinearHistory`] remembers.
#[verifier::ext_equal]
pub struct HistoryState {
    /// `groups[..cursor]` are applied to the buffer; the others can be redone.
    pub groups: Seq<GroupState>,
    pub cursor: int,
    /// How many groups are open.
    pub depth: int,
    /// Changes recorded since the outermost open group began.
    pub open: Seq<Delta>,
    pub open_from: Option<usize>,
    pub row: Option<RowState>,
    pub limit: Option<usize>,
}

/// The content of `row` in `t`.
pub open spec fn row_content(t: Seq<u8>, row: int) -> Seq<u8> {
    t.subrange(text::row_start(t, row), text::content_end(t, row))
}

/// The content of a row is text without a line feed.
pub proof fn lemma_row_content(t: Seq<u8>, row: int)
    requires
        valid_utf8(t),
        t.len() <= buffer::MAX_LEN,
        0 <= row < text::rows(t),
    ensures
        (RowState { row: row as usize, content: row_content(t, row) }).wf(),
{
    let s = text::row_start(t, row);
    let e = text::content_end(t, row);
    text::lemma_rows(t, row);
    text::lemma_row_bounds(t, row);
    text::lemma_slice_valid(t, s, e);
    let c = row_content(t, row);
    assert forall|i: int| 0 <= i < c.len() implies c[i] != 10u8 by {
        text::lemma_row_bytes(t, row, s + i);
        text::lemma_row_bytes(t, row, s + i + 1);
    }
}

impl HistoryState {
    /// A history that remembers nothing.
    pub open spec fn fresh(limit: Option<usize>) -> HistoryState {
        HistoryState {
            groups: Seq::empty(),
            cursor: 0,
            depth: 0,
            open: Seq::empty(),
            open_from: None,
            row: None,
            limit,
        }
    }

    /// What every history keeps.
    pub open spec fn wf(self) -> bool {
        &&& 0 <= self.cursor <= self.groups.len()
        &&& 0 <= self.depth <= usize::MAX
        &&& self.depth == 0 ==> self.open.len() == 0
        &&& all_sized(self.open)
        &&& forall|i: int|
            0 <= i < self.groups.len() ==> all_sized((#[trigger] self.groups[i]).changes)
                && self.groups[i].changes.len() > 0
        &&& self.row is Some ==> self.row->0.wf()
    }

    /// The oldest groups dropped down to the limit.
    pub open spec fn trimmed(self) -> HistoryState {
        match self.limit {
            Some(limit) if self.groups.len() > limit => {
                let excess = self.groups.len() - limit;
                HistoryState {
                    groups: self.groups.skip(excess),
                    cursor: if self.cursor >= excess {
                        self.cursor - excess
                    } else {
                        0
                    },
                    ..self
                }
            },
            _ => self,
        }
    }

    /// The redo tail cut off and `group` put in its place.
    pub open spec fn pushed(self, group: GroupState) -> HistoryState {
        let groups = self.groups.take(self.cursor).push(group);
        (HistoryState { groups, cursor: groups.len() as int, ..self }).trimmed()
    }

    /// The row snapshot after a change to `t`: the first change to land on a row
    /// captures the content it had, later ones on that row leave it, and a change
    /// that spans or alters rows abandons it.
    pub open spec fn noted(self, d: Delta, t: Seq<u8>) -> HistoryState {
        let row = d.edit.start_point.row;
        HistoryState {
            row: if !d.edit.single_row() {
                None
            } else if self.row is Some && self.row->0.row == row {
                self.row
            } else {
                Some(RowState { row, content: row_content(t, row as int) })
            },
            ..self
        }
    }

    /// After observing a change about to be applied to `t`.
    pub open spec fn recorded(self, d: Delta, t: Seq<u8>) -> HistoryState {
        if d.removed == d.inserted {
            self
        } else {
            let noted = self.noted(d, t);
            if self.depth > 0 {
                HistoryState {
                    groups: self.groups.take(self.cursor),
                    open: self.open.push(d),
                    ..noted
                }
            } else {
                noted.pushed(GroupState { changes: seq![d], before: None, after: None })
            }
        }
    }

    /// After a group was opened with the caret at `cursor`.
    pub open spec fn begun(self, cursor: Option<usize>) -> HistoryState {
        HistoryState {
            open_from: if self.depth == 0 {
                cursor
            } else {
                self.open_from
            },
            depth: self.depth + 1,
            ..self
        }
    }

    /// After the innermost group was closed with the caret at `cursor`.
    pub open spec fn ended(self, cursor: Option<usize>) -> HistoryState {
        if self.depth > 1 {
            HistoryState { depth: self.depth - 1, ..self }
        } else {
            let shut = HistoryState { depth: 0, open: Seq::empty(), open_from: None, ..self };
            if self.open.len() == 0 {
                shut
            } else {
                shut.pushed(
                    GroupState { changes: self.open, before: self.open_from, after: cursor },
                )
            }
        }
    }

    /// The step that undoes the most recent group.
    pub open spec fn undo_step(self) -> StepState {
        if self.cursor == 0 {
            no_step()
        } else {
            let group = self.groups[self.cursor - 1];
            StepState { changes: inverses(group.changes), cursor: group.before }
        }
    }

    /// After [`HistoryState::undo_step`] was taken.
    pub open spec fn undone(self) -> HistoryState {
        if self.cursor == 0 {
            self
        } else {
            HistoryState { cursor: self.cursor - 1, row: None, ..self }
        }
    }

    /// The step that reapplies the group undone last.
    pub open spec fn redo_step(self) -> StepState {
        if self.cursor >= self.groups.len() {
            no_step()
        } else {
            let group = self.groups[self.cursor];
            StepState { changes: group.changes, cursor: group.after }
        }
    }

    /// After [`HistoryState::redo_step`] was taken.
    pub open spec fn redone(self) -> HistoryState {
        if self.cursor >= self.groups.len() {
            self
        } else {
            HistoryState { cursor: self.cursor + 1, row: None, ..self }
        }
    }

    /// Whether the snapshot names a row of `t` whose content differs from it.
    pub open spec fn row_differs(self, t: Seq<u8>) -> bool {
        &&& self.row is Some
        &&& self.row->0.row < text::rows(t)
        &&& row_content(t, self.row->0.row as int) != self.row->0.content
    }

    /// The change that gives the snapshot's row its content back.
    pub open spec fn row_delta(self, t: Seq<u8>) -> Delta {
        let row = self.row->0.row as int;
        edit::staged(t, text::row_start(t, row), text::content_end(t, row), self.row->0.content)
    }

    /// The step that restores the most recently changed row of `t`.
    pub open spec fn row_step(self, t: Seq<u8>) -> StepState {
        if self.row_differs(t) {
            StepState {
                changes: seq![self.row_delta(t)],
                cursor: Some(text::row_start(t, self.row->0.row as int) as usize),
            }
        } else {
            no_step()
        }
    }

    /// After [`HistoryState::row_step`] was taken: it is a group of its own, and
    /// the snapshot is what it displaced.
    pub open spec fn row_undone(self, t: Seq<u8>) -> HistoryState {
        if self.row_differs(t) {
            let row = self.row->0.row;
            let start = Some(text::row_start(t, row as int) as usize);
            let pushed = self.pushed(
                GroupState { changes: seq![self.row_delta(t)], before: start, after: start },
            );
            HistoryState {
                row: Some(RowState { row, content: row_content(t, row as int) }),
                ..pushed
            }
        } else if self.row is Some && self.row->0.row >= text::rows(t) {
            HistoryState { row: None, ..self }
        } else {
            self
        }
    }
}

// ---------------------------------------------------------------------------
// steps
// ---------------------------------------------------------------------------

/// Changes that reverse a step, and where the caret was when it began.
///
/// Text and caret travel together because restoring one without the other is
/// jarring: undoing an `o` should put you back where you pressed it, not at the
/// end of the row the newline was appended to. A history that does not track the
/// caret leaves [`cursor`](Step::cursor) as `None` and the caller falls back to
/// whatever it can infer from the changes.
#[derive(Debug, PartialEq, Eq)]
pub struct Step {
    pub changes: Vec<Change>,
    /// Byte offset to restore the caret to, if this history remembers one.
    pub cursor: Option<usize>,
}

impl View for Step {
    type V = StepState;

    open spec fn view(&self) -> StepState {
        StepState { changes: deltas(self.changes@), cursor: self.cursor }
    }
}

impl Default for Step {
    fn default() -> (r: Self)
        ensures
            r@ == no_step(),
    {
        let r = Self { changes: Vec::new(), cursor: None };
        assert(deltas(r.changes@) =~= Seq::<Delta>::empty());
        r
    }
}

impl Clone for Step {
    fn clone(&self) -> (r: Self)
        ensures
            r@ == self@,
    {
        Self { changes: clone_changes(&self.changes), cursor: self.cursor }
    }
}

impl Step {
    /// True when there was nothing to undo or redo.
    #[must_use]
    pub fn is_empty(&self) -> (r: bool)
        ensures
            r == (self@.changes.len() == 0),
    {
        self.changes.len() == 0
    }
}

/// A copy of `changes`.
fn clone_changes(changes: &Vec<Change>) -> (r: Vec<Change>)
    ensures
        r@ == changes@,
{
    let mut out: Vec<Change> = Vec::new();
    let mut i: usize = 0;
    while i < changes.len()
        invariant
            i <= changes.len(),
            out@ == changes@.take(i as int),
        decreases changes.len() - i,
    {
        out.push(changes[i].clone());
        i += 1;
        proof {
            assert(changes@.take(i as int) =~= changes@.take(i - 1).push(changes@[i - 1]));
        }
    }
    proof {
        assert(changes@.take(changes@.len() as int) =~= changes@);
    }
    out
}

/// The changes that undo `changes`: `c1, c2, c3` is undone by the inverses of
/// `c3`, `c2` and `c1`, in that order.
fn invert_changes(changes: &Vec<Change>) -> (r: Vec<Change>)
    ensures
        deltas(r@) == inverses(deltas(changes@)),
{
    let mut out: Vec<Change> = Vec::new();
    let mut i: usize = changes.len();
    while i > 0
        invariant
            i <= changes.len(),
            out.len() == changes.len() - i,
            forall|k: int|
                0 <= k < out.len() ==> (#[trigger] out[k])@ == changes[changes.len() - 1
                    - k]@.inverse(),
        decreases i,
    {
        i -= 1;
        out.push(changes[i].inverted());
    }
    proof {
        assert(deltas(out@) =~= inverses(deltas(changes@)));
    }
    out
}

// ---------------------------------------------------------------------------
// the policy
// ---------------------------------------------------------------------------

/// Whether `d` is a change about to be applied to `t`.
pub open spec fn observes(d: Delta, t: Seq<u8>) -> bool {
    &&& d.fits(t)
    &&& d.sized()
    &&& d.edit.start_point == edit::point_at(t, d.edit.start_byte as int)
}

/// A policy for remembering changes and handing back the changes that reverse
/// them.
///
/// - [`record`](History::record) is called **before** the change is applied, so
///   `buf` is the pre-image. Implementations that need to snapshot prior state
///   depend on this.
/// - [`undo`](History::undo), [`redo`](History::redo) and
///   [`undo_row`](History::undo_row) return changes for the caller to apply, in
///   the order given. The caller must apply all of them and must **not** feed them
///   back through `record`. [`crate::Document`] does so.
/// - An empty return means "nothing to do", not an error.
pub trait History: Sized {
    /// What the history keeps between calls.
    spec fn inv(&self) -> bool;

    /// How many groups are open.
    spec fn nesting(&self) -> int;

    /// Observe a change about to be applied to `buf`.
    fn record(&mut self, change: &Change, buf: &Buffer)
        requires
            old(self).inv(),
            buf.wf(),
            observes(change@, buf@),
        ensures
            final(self).inv(),
            final(self).nesting() == old(self).nesting(),
    ;

    /// Open a group. Changes recorded until the matching
    /// [`end_group`](History::end_group) undo as one step.
    ///
    /// `cursor` is the caret position the group starts from, for [`Step::cursor`]
    /// to hand back on undo. Callers with no caret pass `None`. Only the outermost
    /// group's value is kept, since nesting exists to let an inner bracket be a
    /// no-op.
    fn begin_group(&mut self, cursor: Option<usize>)
        requires
            old(self).inv(),
            old(self).nesting() < usize::MAX,
        ensures
            final(self).inv(),
    ;

    /// Close the innermost open group. Calls nest.
    ///
    /// `cursor` is the caret position the group ends at, which is what a *redo*
    /// restores.
    fn end_group(&mut self, cursor: Option<usize>)
        requires
            old(self).inv(),
        ensures
            final(self).inv(),
    ;

    /// Changes that undo the most recent step.
    fn undo(&mut self) -> (r: Step)
        requires
            old(self).inv(),
        ensures
            final(self).inv(),
            final(self).nesting() == old(self).nesting(),
    ;

    /// Changes that reapply the most recently undone step.
    fn redo(&mut self) -> (r: Step)
        requires
            old(self).inv(),
        ensures
            final(self).inv(),
            final(self).nesting() == old(self).nesting(),
    ;

    /// vi's `U`: restore the most recently changed row to its content from before
    /// the current run of changes on it.
    ///
    /// Defaults to unsupported, so simple histories opt out by saying nothing.
    fn undo_row(&mut self, buf: &Buffer) -> (r: Step)
        requires
            old(self).inv(),
            buf.wf(),
        ensures
            final(self).inv(),
            final(self).nesting() == old(self).nesting(),
        default_ensures
            r@ == no_step(),
            *final(self) == *old(self),
    {
        Step::default()
    }
}

/// Discards everything. Undo is a no-op.
///
/// Useful for throwaway single-line inputs, and as proof that the buffer really
/// does not depend on history.
#[derive(Debug, Clone, Copy, Default)]
pub struct NoHistory;

impl History for NoHistory {
    open spec fn inv(&self) -> bool {
        true
    }

    open spec fn nesting(&self) -> int {
        0
    }

    fn record(&mut self, _change: &Change, _buf: &Buffer)
        ensures
            *final(self) == *old(self),
    {
    }

    fn begin_group(&mut self, _cursor: Option<usize>)
        ensures
            *final(self) == *old(self),
    {
    }

    fn end_group(&mut self, _cursor: Option<usize>)
        ensures
            *final(self) == *old(self),
    {
    }

    fn undo(&mut self) -> (r: Step)
        ensures
            r@ == no_step(),
            *final(self) == *old(self),
    {
        Step::default()
    }

    fn redo(&mut self) -> (r: Step)
        ensures
            r@ == no_step(),
            *final(self) == *old(self),
    {
        Step::default()
    }
}

#[derive(Debug)]
struct RowSnapshot {
    row: usize,
    content: String,
}

impl Clone for RowSnapshot {
    fn clone(&self) -> (r: Self)
        ensures
            r == *self,
    {
        Self { row: self.row, content: self.content.clone() }
    }
}

#[derive(Debug)]
struct Group {
    changes: Vec<Change>,
    /// Caret before the changes, restored by `undo`.
    before: Option<usize>,
    /// Caret after them, restored by `redo`.
    after: Option<usize>,
}

impl View for Group {
    type V = GroupState;

    closed spec fn view(&self) -> GroupState {
        GroupState { changes: deltas(self.changes@), before: self.before, after: self.after }
    }
}

impl Clone for Group {
    fn clone(&self) -> (r: Self)
        ensures
            r@ == self@,
    {
        Self { changes: clone_changes(&self.changes), before: self.before, after: self.after }
    }
}

/// A linear undo stack with grouping and row-scoped undo.
///
/// This is the ordinary vi model: `u` walks back through groups, `C-r` walks
/// forward, a new change truncates the redo tail, and `U` toggles one row.
#[derive(Debug)]
pub struct LinearHistory {
    /// `groups[..cursor]` are applied to the buffer; `groups[cursor..]` are the
    /// redo tail.
    groups: Vec<Group>,
    cursor: usize,
    depth: usize,
    open: Vec<Change>,
    /// Caret at the moment the outermost open group began.
    open_from: Option<usize>,
    row: Option<RowSnapshot>,
    limit: Option<usize>,
}

impl View for LinearHistory {
    type V = HistoryState;

    closed spec fn view(&self) -> HistoryState {
        HistoryState {
            groups: self.groups@.map_values(|g: Group| g@),
            cursor: self.cursor as int,
            depth: self.depth as int,
            open: deltas(self.open@),
            open_from: self.open_from,
            row: match self.row {
                Some(snapshot) => Some(
                    RowState { row: snapshot.row, content: encode_utf8(snapshot.content@) },
                ),
                None => None,
            },
            limit: self.limit,
        }
    }
}

impl Clone for LinearHistory {
    fn clone(&self) -> (r: Self)
        ensures
            r@ == self@,
    {
        let mut groups: Vec<Group> = Vec::new();
        let mut i: usize = 0;
        while i < self.groups.len()
            invariant
                i <= self.groups.len(),
                groups.len() == i,
                forall|k: int| 0 <= k < i ==> (#[trigger] groups[k])@ == self.groups[k]@,
            decreases self.groups.len() - i,
        {
            groups.push(self.groups[i].clone());
            i += 1;
        }
        let row: Option<RowSnapshot> = match &self.row {
            Some(snapshot) => Some(snapshot.clone()),
            None => None,
        };
        let r = Self {
            groups,
            cursor: self.cursor,
            depth: self.depth,
            open: clone_changes(&self.open),
            open_from: self.open_from,
            row,
            limit: self.limit,
        };
        assert(r@.groups =~= self@.groups);
        r
    }
}

impl Default for LinearHistory {
    fn default() -> (r: Self)
        ensures
            r@ == HistoryState::fresh(None),
    {
        Self::new()
    }
}

impl LinearHistory {
    /// A history that keeps every step.
    #[must_use]
    pub fn new() -> (r: Self)
        ensures
            r@ == HistoryState::fresh(None),
    {
        let r = Self {
            groups: Vec::new(),
            cursor: 0,
            depth: 0,
            open: Vec::new(),
            open_from: None,
            row: None,
            limit: None,
        };
        assert(r@.groups =~= Seq::<GroupState>::empty());
        assert(r@.open =~= Seq::<Delta>::empty());
        r
    }

    /// Keep at most `groups` undo steps, discarding the oldest.
    #[must_use]
    pub fn with_limit(groups: usize) -> (r: Self)
        ensures
            r@ == HistoryState::fresh(Some(groups)),
    {
        let mut r = Self::new();
        r.limit = Some(groups);
        assert(r@.groups =~= Seq::<GroupState>::empty());
        r
    }

    /// Change how many undo steps are kept, discarding the oldest beyond it.
    pub fn set_limit(&mut self, limit: Option<usize>)
        requires
            old(self)@.wf(),
        ensures
            final(self)@ == (HistoryState { limit, ..old(self)@ }).trimmed(),
            final(self)@.wf(),
    {
        self.limit = limit;
        self.trim();
    }

    /// Number of steps `undo` can take.
    #[must_use]
    pub fn undo_depth(&self) -> (r: usize)
        ensures
            r == self@.cursor,
    {
        self.cursor
    }

    /// Number of steps `redo` can take.
    #[must_use]
    pub fn redo_depth(&self) -> (r: usize)
        requires
            self@.wf(),
        ensures
            r == self@.groups.len() - self@.cursor,
    {
        self.groups.len() - self.cursor
    }

    /// The row `undo_row` would act on, if any.
    #[must_use]
    pub fn pending_row(&self) -> (r: Option<usize>)
        ensures
            r == match self@.row {
                Some(snapshot) => Some(snapshot.row),
                None => None,
            },
    {
        match &self.row {
            Some(snapshot) => Some(snapshot.row),
            None => None,
        }
    }

    /// The step [`History::undo`] would return.
    #[must_use]
    pub fn peek_undo(&self) -> (r: Step)
        requires
            self@.wf(),
        ensures
            r@ == self@.undo_step(),
    {
        if self.cursor == 0 {
            return Step::default();
        }
        let group: &Group = &self.groups[self.cursor - 1];
        Step { changes: invert_changes(&group.changes), cursor: group.before }
    }

    /// The step [`History::redo`] would return.
    #[must_use]
    pub fn peek_redo(&self) -> (r: Step)
        requires
            self@.wf(),
        ensures
            r@ == self@.redo_step(),
    {
        if self.cursor >= self.groups.len() {
            return Step::default();
        }
        let group: &Group = &self.groups[self.cursor];
        Step { changes: clone_changes(&group.changes), cursor: group.after }
    }

    fn push_group(&mut self, group: Group)
        requires
            old(self)@.wf(),
            all_sized(group@.changes),
            group@.changes.len() > 0,
        ensures
            final(self)@ == old(self)@.pushed(group@),
            final(self)@.wf(),
    {
        self.groups.truncate(self.cursor);
        self.groups.push(group);
        self.cursor = self.groups.len();
        assert(self@.groups =~= old(self)@.groups.take(old(self)@.cursor).push(group@));
        self.trim();
    }

    fn trim(&mut self)
        requires
            old(self)@.wf(),
        ensures
            final(self)@ == old(self)@.trimmed(),
            final(self)@.wf(),
    {
        if let Some(limit) = self.limit {
            if self.groups.len() > limit {
                let excess: usize = self.groups.len() - limit;
                let kept: Vec<Group> = self.groups.split_off(excess);
                self.groups = kept;
                self.cursor = self.cursor.saturating_sub(excess);
                assert(self@.groups =~= old(self)@.groups.skip(excess as int));
            }
        }
    }

    /// Maintain the row-scoped snapshot.
    ///
    /// The first change to land on a row captures that row's prior content;
    /// subsequent changes to the same row accumulate against it, so `U` reverses
    /// the whole run rather than one edit. Any change that spans or alters row
    /// structure abandons the snapshot: vi's `U` is deliberately not a multi-line
    /// operation.
    fn note_row(&mut self, change: &Change, buf: &Buffer)
        requires
            old(self)@.wf(),
            buf.wf(),
            observes(change@, buf@),
        ensures
            final(self)@ == old(self)@.noted(change@, buf@),
            final(self)@.wf(),
    {
        if !change.edit.is_single_row() {
            self.row = None;
            assert(self@ =~= old(self)@.noted(change@, buf@));
            return;
        }
        let row: usize = change.edit.start_point.row;
        let fresh: bool = match &self.row {
            Some(snapshot) => snapshot.row != row,
            None => true,
        };
        proof {
            text::lemma_row_of(buf@, change.edit.start_byte as int);
            lemma_row_content(buf@, row as int);
        }
        if fresh {
            self.row = Some(RowSnapshot { row, content: buf.row_text(row) });
        }
        assert(self@ =~= old(self)@.noted(change@, buf@));
    }
}

impl History for LinearHistory {
    open spec fn inv(&self) -> bool {
        self@.wf()
    }

    open spec fn nesting(&self) -> int {
        self@.depth
    }

    fn record(&mut self, change: &Change, buf: &Buffer)
        ensures
            final(self)@ == old(self)@.recorded(change@, buf@),
    {
        if change.is_noop() {
            return;
        }
        self.note_row(change, buf);
        if self.depth > 0 {
            self.groups.truncate(self.cursor);
            self.open.push(change.clone());
            assert(self@.groups =~= old(self)@.groups.take(old(self)@.cursor));
            assert(self@.open =~= old(self)@.open.push(change@));
            assert(self@ =~= old(self)@.recorded(change@, buf@));
        } else {
            // Ungrouped, so there is no caret to bracket it with.
            let group = Group { changes: vec![change.clone()], before: None, after: None };
            assert(group@.changes =~= seq![change@]);
            self.push_group(group);
        }
    }

    fn begin_group(&mut self, cursor: Option<usize>)
        ensures
            final(self)@ == old(self)@.begun(cursor),
    {
        if self.depth == 0 {
            self.open_from = cursor;
        }
        self.depth += 1;
    }

    fn end_group(&mut self, cursor: Option<usize>)
        ensures
            final(self)@ == old(self)@.ended(cursor),
    {
        if self.depth > 1 {
            self.depth -= 1;
            return;
        }
        self.depth = 0;
        let before: Option<usize> = self.open_from.take();
        let mut changes: Vec<Change> = Vec::new();
        core::mem::swap(&mut changes, &mut self.open);
        assert(self@.open =~= Seq::<Delta>::empty());
        if changes.len() > 0 {
            self.push_group(Group { changes, before, after: cursor });
        }
    }

    fn undo(&mut self) -> (r: Step)
        ensures
            r@ == old(self)@.undo_step(),
            final(self)@ == old(self)@.undone(),
    {
        let step: Step = self.peek_undo();
        if self.cursor > 0 {
            self.cursor -= 1;
            self.row = None;
        }
        step
    }

    fn redo(&mut self) -> (r: Step)
        ensures
            r@ == old(self)@.redo_step(),
            final(self)@ == old(self)@.redone(),
    {
        let step: Step = self.peek_redo();
        if self.cursor < self.groups.len() {
            self.cursor += 1;
            self.row = None;
        }
        step
    }

    fn undo_row(&mut self, buf: &Buffer) -> (r: Step)
        ensures
            r@ == old(self)@.row_step(buf@),
            final(self)@ == old(self)@.row_undone(buf@),
    {
        let taken: Option<RowSnapshot> = self.row.take();
        let snapshot: RowSnapshot = match taken {
            None => {
                return Step::default();
            },
            Some(snapshot) => snapshot,
        };
        if snapshot.row >= buf.len_rows() {
            return Step::default();
        }
        let range: Range<usize> = buf.row_content_range(snapshot.row);
        let row_start: usize = range.start;
        let row_end: usize = range.end;
        let current: String = buf.text_in(range);
        proof {
            text::lemma_encode_injective(current@, snapshot.content@);
            lemma_row_content(buf@, snapshot.row as int);
        }
        if current == snapshot.content {
            self.row = Some(snapshot);
            return Step::default();
        }
        let change: Change = buf.stage_replace(row_start..row_end, snapshot.content.as_str());
        // `U` is an ordinary change as far as `u` is concerned. Its own caret
        // bracket is the row it restored, from both directions.
        let group = Group {
            changes: vec![change.clone()],
            before: Some(row_start),
            after: Some(row_start),
        };
        assert(group@.changes =~= seq![change@]);
        self.push_group(group);
        // Swapping the snapshot for what we just displaced is what makes a second
        // `U` toggle back.
        self.row = Some(RowSnapshot { row: snapshot.row, content: current });
        let step = Step { changes: vec![change], cursor: Some(row_start) };
        assert(step@.changes =~= seq![change@]);
        assert(self@ =~= old(self)@.row_undone(buf@));
        step
    }
}

} // verus!
