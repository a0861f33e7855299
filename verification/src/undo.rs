//! What undo promises: a history that kept step with a text can walk it back to
//! where it began, and forward again.

use vstd::prelude::*;
use vstd::utf8::*;

use crate::buffer;
use crate::edit;
use crate::edit::Delta;
use crate::history;
use crate::history::{GroupState, HistoryState, StepState};
use crate::text;

verus! {

// ---------------------------------------------------------------------------
// runs of changes
// ---------------------------------------------------------------------------

/// Applying a run is applying its first part, then the rest.
pub proof fn lemma_run_split(t: Seq<u8>, a: Seq<Delta>, b: Seq<Delta>)
    ensures
        history::runs(t, a + b) == (history::runs(t, a) && history::runs(history::run(t, a), b)),
        history::lands(t, a + b) == (history::lands(t, a) && history::lands(
            history::run(t, a),
            b,
        )),
        history::run(t, a + b) == history::run(history::run(t, a), b),
    decreases a.len(),
{
    if a.len() == 0 {
        assert(a + b =~= b);
    } else {
        assert((a + b).drop_first() =~= a.drop_first() + b);
        lemma_run_split(a[0].applied(t), a.drop_first(), b);
    }
}

/// What fits can be applied.
pub proof fn lemma_runs_land(t: Seq<u8>, ds: Seq<Delta>)
    requires
        history::runs(t, ds),
    ensures
        history::lands(t, ds),
    decreases ds.len(),
{
    if ds.len() > 0 {
        lemma_runs_land(ds[0].applied(t), ds.drop_first());
    }
}

/// A run keeps a text valid and within bounds.
pub proof fn lemma_run_valid(t: Seq<u8>, ds: Seq<Delta>)
    requires
        valid_utf8(t),
        t.len() <= buffer::MAX_LEN,
        history::lands(t, ds),
    ensures
        valid_utf8(history::run(t, ds)),
        history::run(t, ds).len() <= buffer::MAX_LEN,
    decreases ds.len(),
{
    if ds.len() > 0 {
        let d = ds[0];
        text::lemma_splice(
            t,
            d.edit.start_byte as int,
            d.edit.old_end_byte as int,
            d.inserted,
        );
        lemma_run_valid(d.applied(t), ds.drop_first());
    }
}

/// Inverting a run twice gives the run back.
pub proof fn inverses_are_involutive(ds: Seq<Delta>)
    ensures
        history::inverses(history::inverses(ds)) == ds,
{
    let twice = history::inverses(history::inverses(ds));
    assert forall|i: int| 0 <= i < ds.len() implies twice[i] == ds[i] by {
        edit::inverse_is_involutive(ds[i]);
    }
    assert(twice =~= ds);
}

/// A run and its inverses cancel: they apply after it, and give the text back.
pub proof fn inverses_undo_a_run(t: Seq<u8>, ds: Seq<Delta>)
    requires
        valid_utf8(t),
        t.len() <= buffer::MAX_LEN,
        history::runs(t, ds),
        history::all_sized(ds),
    ensures
        history::runs(history::run(t, ds), history::inverses(ds)),
        history::run(history::run(t, ds), history::inverses(ds)) == t,
        history::all_sized(history::inverses(ds)),
    decreases ds.len(),
{
    reveal(in_step);
    reveal(settled);
    reveal(origin);
    if ds.len() > 0 {
        let d = ds[0];
        let rest = ds.drop_first();
        let u = d.applied(t);
        edit::inverse_undoes(d, t);
        inverses_undo_a_run(u, rest);
        let last = seq![d.inverse()];
        assert(history::inverses(ds) =~= history::inverses(rest) + last);
        lemma_run_split(history::run(t, ds), history::inverses(rest), last);
        assert(last.drop_first() =~= Seq::<Delta>::empty());
        reveal_with_fuel(history::runs, 2);
        reveal_with_fuel(history::run, 2);
        assert forall|i: int| 0 <= i < ds.len() implies (#[trigger] history::inverses(
            ds,
        )[i]).sized() by {
            let back = ds[ds.len() - 1 - i];
            assert(back.sized());
        }
    }
}

// ---------------------------------------------------------------------------
// keeping step
// ---------------------------------------------------------------------------

/// Whether the first `k` groups can be undone from `t`, newest first.
pub open spec fn undoable(groups: Seq<GroupState>, k: int, t: Seq<u8>) -> bool
    decreases k,
{
    k <= 0 || {
        let back = history::inverses(groups[k - 1].changes);
        &&& history::runs(t, back)
        &&& undoable(groups, k - 1, history::run(t, back))
    }
}

/// The text from which the first `k` groups led to `t`.
pub open spec fn unwound(groups: Seq<GroupState>, k: int, t: Seq<u8>) -> Seq<u8>
    decreases k,
{
    if k <= 0 {
        t
    } else {
        unwound(
            groups,
            k - 1,
            history::run(t, history::inverses(groups[k - 1].changes)),
        )
    }
}

/// Whether the groups from `k` on can be redone from `t`.
pub open spec fn redoable(groups: Seq<GroupState>, k: int, t: Seq<u8>) -> bool
    decreases groups.len() - k,
{
    k >= groups.len() || {
        &&& history::runs(t, groups[k].changes)
        &&& redoable(groups, k + 1, history::run(t, groups[k].changes))
    }
}

/// The text as it was before the open group began.
#[verifier::opaque]
pub open spec fn settled(h: HistoryState, t: Seq<u8>) -> Seq<u8> {
    history::run(t, history::inverses(h.open))
}

/// Whether `h` has seen every change that led to `t`: the open group can be taken
/// back, then each undo step, and each redo step applied. While changes are open there
/// is nothing to redo.
#[verifier::opaque]
pub open spec fn in_step(h: HistoryState, t: Seq<u8>) -> bool {
    &&& valid_utf8(t)
    &&& t.len() <= buffer::MAX_LEN
    &&& history::runs(t, history::inverses(h.open))
    &&& undoable(h.groups, h.cursor, settled(h, t))
    &&& redoable(h.groups, h.cursor, settled(h, t))
    &&& h.open.len() > 0 ==> h.cursor >= h.groups.len()
}

/// The text a history began from.
#[verifier::opaque]
pub open spec fn origin(h: HistoryState, t: Seq<u8>) -> Seq<u8> {
    unwound(h.groups, h.cursor, settled(h, t))
}

/// With nothing open, the text is settled.
pub proof fn lemma_nothing_open(h: HistoryState, t: Seq<u8>)
    requires
        h.open.len() == 0,
    ensures
        settled(h, t) == t,
        history::runs(t, history::inverses(h.open)),
{
    reveal(settled);
    assert(history::inverses(h.open) =~= Seq::<Delta>::empty());
}

proof fn lemma_undoable_agrees(a: Seq<GroupState>, b: Seq<GroupState>, k: int, t: Seq<u8>)
    requires
        0 <= k <= a.len(),
        k <= b.len(),
        forall|i: int| 0 <= i < k ==> a[i] == b[i],
    ensures
        undoable(a, k, t) == undoable(b, k, t),
        unwound(a, k, t) == unwound(b, k, t),
    decreases k,
{
    if k > 0 {
        lemma_undoable_agrees(
            a,
            b,
            k - 1,
            history::run(t, history::inverses(a[k - 1].changes)),
        );
    }
}

proof fn lemma_undoable_skip(groups: Seq<GroupState>, e: int, k: int, t: Seq<u8>)
    requires
        0 <= e <= k <= groups.len(),
        undoable(groups, k, t),
    ensures
        undoable(groups.skip(e), k - e, t),
    decreases k - e,
{
    if k > e {
        assert(groups.skip(e)[k - e - 1] == groups[k - 1]);
        lemma_undoable_skip(
            groups,
            e,
            k - 1,
            history::run(t, history::inverses(groups[k - 1].changes)),
        );
    }
}

/// Pushing a group that led from `u` to `t` keeps step.
proof fn lemma_push(h: HistoryState, g: GroupState, u: Seq<u8>)
    requires
        h.wf(),
        valid_utf8(u),
        u.len() <= buffer::MAX_LEN,
        undoable(h.groups, h.cursor, u),
        history::runs(u, g.changes),
        history::all_sized(g.changes),
    ensures
        undoable(h.pushed(g).groups, h.pushed(g).cursor, history::run(u, g.changes)),
        redoable(h.pushed(g).groups, h.pushed(g).cursor, history::run(u, g.changes)),
        h.limit is None ==> unwound(
            h.pushed(g).groups,
            h.pushed(g).cursor,
            history::run(u, g.changes),
        ) == unwound(h.groups, h.cursor, u),
        h.pushed(g).cursor == h.pushed(g).groups.len(),
{
    let t = history::run(u, g.changes);
    let groups = h.groups.take(h.cursor).push(g);
    inverses_undo_a_run(u, g.changes);
    lemma_undoable_agrees(h.groups, groups, h.cursor, u);
    assert(groups[h.cursor] == g);
    assert(undoable(groups, h.cursor + 1, t));
    match h.limit {
        Some(limit) if groups.len() > limit => {
            let excess = groups.len() - limit;
            lemma_undoable_skip(groups, excess, groups.len() as int, t);
        },
        _ => {},
    }
}

/// A fresh history keeps step with the text it starts from.
pub proof fn fresh_history_is_in_step(limit: Option<usize>, t: Seq<u8>)
    requires
        valid_utf8(t),
        t.len() <= buffer::MAX_LEN,
    ensures
        in_step(HistoryState::fresh(limit), t),
        origin(HistoryState::fresh(limit), t) == t,
{
    reveal(in_step);
    reveal(settled);
    reveal(origin);
    lemma_nothing_open(HistoryState::fresh(limit), t);
}

/// Recording a change and applying it keeps step, and forgets nothing of where
/// the text began unless a limit says so.
pub proof fn recording_keeps_step(h: HistoryState, d: Delta, t: Seq<u8>)
    requires
        h.wf(),
        in_step(h, t),
        d.fits(t),
        d.sized(),
        d.applied(t).len() <= buffer::MAX_LEN,
    ensures
        in_step(h.recorded(d, t), d.applied(t)),
        h.limit is None ==> origin(h.recorded(d, t), d.applied(t)) == origin(h, t),
        h.depth > 0 ==> settled(h.recorded(d, t), d.applied(t)) == settled(h, t),
{
    reveal(in_step);
    reveal(settled);
    reveal(origin);
    let r = h.recorded(d, t);
    let v = d.applied(t);
    edit::inverse_undoes(d, t);
    if d.removed == d.inserted {
        assert(v =~= t);
    } else if h.depth > 0 {
        let first = seq![d.inverse()];
        assert(history::inverses(r.open) =~= first + history::inverses(h.open));
        lemma_run_split(v, first, history::inverses(h.open));
        assert(first.drop_first() =~= Seq::<Delta>::empty());
        reveal_with_fuel(history::runs, 2);
        reveal_with_fuel(history::run, 2);
        let u = settled(h, t);
        assert(settled(r, v) == u);
        lemma_undoable_agrees(h.groups, r.groups, h.cursor, u);
    } else {
        lemma_nothing_open(h, t);
        lemma_nothing_open(r, v);
        let g = GroupState { changes: seq![d], before: None, after: None };
        assert(seq![d].drop_first() =~= Seq::<Delta>::empty());
        reveal_with_fuel(history::runs, 2);
        reveal_with_fuel(history::run, 2);
        let noted = h.noted(d, t);
        assert(undoable(noted.groups, noted.cursor, t));
        lemma_push_any_row(noted, h, g, t);
    }
}

/// `lemma_push` for a history that differs from a well-formed one in its row
/// snapshot alone.
proof fn lemma_push_any_row(n: HistoryState, h: HistoryState, g: GroupState, u: Seq<u8>)
    requires
        h.wf(),
        n == (HistoryState { row: n.row, ..h }),
        valid_utf8(u),
        u.len() <= buffer::MAX_LEN,
        undoable(h.groups, h.cursor, u),
        history::runs(u, g.changes),
        history::all_sized(g.changes),
    ensures
        undoable(n.pushed(g).groups, n.pushed(g).cursor, history::run(u, g.changes)),
        redoable(n.pushed(g).groups, n.pushed(g).cursor, history::run(u, g.changes)),
        h.limit is None ==> unwound(
            n.pushed(g).groups,
            n.pushed(g).cursor,
            history::run(u, g.changes),
        ) == unwound(h.groups, h.cursor, u),
{
    lemma_push(h, g, u);
    assert(n.pushed(g).groups == h.pushed(g).groups);
    assert(n.pushed(g).cursor == h.pushed(g).cursor);
}

/// Opening a group keeps step.
pub proof fn beginning_a_group_keeps_step(h: HistoryState, cursor: Option<usize>, t: Seq<u8>)
    requires
        in_step(h, t),
    ensures
        in_step(h.begun(cursor), t),
        origin(h.begun(cursor), t) == origin(h, t),
        settled(h.begun(cursor), t) == settled(h, t),
{
    reveal(in_step);
    reveal(settled);
    reveal(origin);
}

/// Closing a group keeps step, whether it becomes a step of its own or joins the
/// group around it.
pub proof fn ending_a_group_keeps_step(h: HistoryState, cursor: Option<usize>, t: Seq<u8>)
    requires
        h.wf(),
        in_step(h, t),
    ensures
        in_step(h.ended(cursor), t),
        h.limit is None ==> origin(h.ended(cursor), t) == origin(h, t),
        h.depth > 1 ==> settled(h.ended(cursor), t) == settled(h, t),
        h.depth <= 1 && h.open.len() == 0 ==> settled(h, t) == t,
        h.depth <= 1 && h.open.len() > 0 && h.limit is None ==> h.ended(cursor).cursor > 0
            && history::run(t, h.ended(cursor).undo_step().changes) == settled(h, t),
{
    reveal(in_step);
    reveal(settled);
    reveal(origin);
    if h.depth <= 1 {
        let r = h.ended(cursor);
        lemma_nothing_open(r, t);
        if h.open.len() == 0 {
            lemma_nothing_open(h, t);
        } else {
            let u = settled(h, t);
            lemma_runs_land(t, history::inverses(h.open));
            lemma_run_valid(t, history::inverses(h.open));
            // the open changes led from `u` to `t`
            let back = history::inverses(h.open);
            assert(history::all_sized(back)) by {
                assert forall|i: int| 0 <= i < back.len() implies (#[trigger] back[i]).sized() by {
                    assert(h.open[h.open.len() - 1 - i].sized());
                }
            }
            inverses_undo_a_run(t, back);
            inverses_are_involutive(h.open);
            let shut = HistoryState { depth: 0, open: Seq::empty(), open_from: None, ..h };
            let g = GroupState { changes: h.open, before: h.open_from, after: cursor };
            lemma_push(shut, g, u);
        }
    }
}

/// With nothing open, undo is always possible, keeps step, and keeps the origin.
pub proof fn undoing_keeps_step(h: HistoryState, t: Seq<u8>)
    requires
        h.wf(),
        in_step(h, t),
        h.open.len() == 0,
    ensures
        history::runs(t, h.undo_step().changes),
        in_step(h.undone(), history::run(t, h.undo_step().changes)),
        origin(h.undone(), history::run(t, h.undo_step().changes)) == origin(h, t),
{
    reveal(in_step);
    reveal(settled);
    reveal(origin);
    lemma_nothing_open(h, t);
    if h.cursor > 0 {
        let ds = h.groups[h.cursor - 1].changes;
        let back = history::inverses(ds);
        let s = history::run(t, back);
        lemma_nothing_open(h.undone(), s);
        lemma_runs_land(t, back);
        lemma_run_valid(t, back);
        assert(history::all_sized(back)) by {
            assert forall|i: int| 0 <= i < back.len() implies (#[trigger] back[i]).sized() by {
                assert(ds[ds.len() - 1 - i].sized());
            }
        }
        inverses_undo_a_run(t, back);
        inverses_are_involutive(ds);
    }
}

/// Redo is always possible, keeps step, and keeps the origin.
pub proof fn redoing_keeps_step(h: HistoryState, t: Seq<u8>)
    requires
        h.wf(),
        in_step(h, t),
    ensures
        history::runs(t, h.redo_step().changes),
        in_step(h.redone(), history::run(t, h.redo_step().changes)),
        origin(h.redone(), history::run(t, h.redo_step().changes)) == origin(h, t),
{
    reveal(in_step);
    reveal(settled);
    reveal(origin);
    if h.cursor < h.groups.len() {
        lemma_nothing_open(h, t);
        let ds = h.groups[h.cursor].changes;
        let s = history::run(t, ds);
        lemma_nothing_open(h.redone(), s);
        lemma_runs_land(t, ds);
        lemma_run_valid(t, ds);
        inverses_undo_a_run(t, ds);
    }
}

/// Redo takes back an undo: the same text, and the same place in the history.
pub proof fn redo_reverses_undo(h: HistoryState, t: Seq<u8>)
    requires
        h.wf(),
        in_step(h, t),
        h.open.len() == 0,
        h.cursor > 0,
    ensures
        history::run(
            history::run(t, h.undo_step().changes),
            h.undone().redo_step().changes,
        ) == t,
        h.undone().redone() == (HistoryState { row: None, ..h }),
{
    reveal(in_step);
    reveal(settled);
    reveal(origin);
    lemma_nothing_open(h, t);
    let ds = h.groups[h.cursor - 1].changes;
    let back = history::inverses(ds);
    assert(history::all_sized(back)) by {
        assert forall|i: int| 0 <= i < back.len() implies (#[trigger] back[i]).sized() by {
            assert(ds[ds.len() - 1 - i].sized());
        }
    }
    inverses_undo_a_run(t, back);
    inverses_are_involutive(ds);
}

/// Undo takes back a redo: the same text, and the same place in the history.
pub proof fn undo_reverses_redo(h: HistoryState, t: Seq<u8>)
    requires
        h.wf(),
        in_step(h, t),
        h.open.len() == 0,
        h.cursor < h.groups.len(),
    ensures
        history::run(
            history::run(t, h.redo_step().changes),
            h.redone().undo_step().changes,
        ) == t,
        h.redone().undone() == (HistoryState { row: None, ..h }),
{
    reveal(in_step);
    reveal(settled);
    reveal(origin);
    lemma_nothing_open(h, t);
    inverses_undo_a_run(t, h.groups[h.cursor].changes);
}

/// The history and the text after `n` undo steps.
pub open spec fn undo_times(h: HistoryState, t: Seq<u8>, n: nat) -> (HistoryState, Seq<u8>)
    decreases n,
{
    if n == 0 {
        (h, t)
    } else {
        undo_times(h.undone(), history::run(t, h.undo_step().changes), (n - 1) as nat)
    }
}

/// The history and the text after `n` redo steps.
pub open spec fn redo_times(h: HistoryState, t: Seq<u8>, n: nat) -> (HistoryState, Seq<u8>)
    decreases n,
{
    if n == 0 {
        (h, t)
    } else {
        redo_times(h.redone(), history::run(t, h.redo_step().changes), (n - 1) as nat)
    }
}

/// Undoing as often as the history is deep leads back to where the text began.
pub proof fn undo_reaches_the_origin(h: HistoryState, t: Seq<u8>)
    requires
        h.wf(),
        in_step(h, t),
        h.open.len() == 0,
    ensures
        undo_times(h, t, h.cursor as nat).1 == origin(h, t),
        undo_times(h, t, h.cursor as nat).0.cursor == 0,
    decreases h.cursor,
{
    reveal(in_step);
    reveal(settled);
    reveal(origin);
    lemma_nothing_open(h, t);
    if h.cursor > 0 {
        undoing_keeps_step(h, t);
        undo_reaches_the_origin(h.undone(), history::run(t, h.undo_step().changes));
    }
}

proof fn lemma_redo_times_last(h: HistoryState, t: Seq<u8>, n: nat)
    requires
        n > 0,
    ensures
        redo_times(h, t, n) == ({
            let (g, s) = redo_times(h, t, (n - 1) as nat);
            (g.redone(), history::run(s, g.redo_step().changes))
        }),
    decreases n,
{
    if n > 1 {
        lemma_redo_times_last(
            h.redone(),
            history::run(t, h.redo_step().changes),
            (n - 1) as nat,
        );
    } else {
        reveal_with_fuel(redo_times, 2);
    }
}

/// Redoing as often as one undid leads back to the same text and the same place
/// in the history.
pub proof fn redo_retraces_undo(h: HistoryState, t: Seq<u8>, n: nat)
    requires
        h.wf(),
        in_step(h, t),
        h.open.len() == 0,
        0 < n <= h.cursor,
    ensures
        ({
            let (g, s) = undo_times(h, t, n);
            redo_times(g, s, n) == (HistoryState { row: None, ..h }, t)
        }),
    decreases n,
{
    reveal(in_step);
    reveal(settled);
    reveal(origin);
    undoing_keeps_step(h, t);
    redo_reverses_undo(h, t);
    let h1 = h.undone();
    let t1 = history::run(t, h.undo_step().changes);
    let m = (n - 1) as nat;
    let (g, s) = undo_times(h, t, n);
    assert((g, s) == undo_times(h1, t1, m));
    lemma_redo_times_last(g, s, n);
    if m > 0 {
        redo_retraces_undo(h1, t1, m);
        assert(redo_times(g, s, m) == (HistoryState { row: None, ..h1 }, t1));
        assert((HistoryState { row: None, ..h1 }) == h1);
    }
}

// ---------------------------------------------------------------------------
// the rest of the policy
// ---------------------------------------------------------------------------

/// A change that alters text leaves nothing to redo.
pub proof fn a_new_change_truncates_the_redo_tail(h: HistoryState, d: Delta, t: Seq<u8>)
    requires
        h.wf(),
        d.removed != d.inserted,
    ensures
        h.recorded(d, t).cursor == h.recorded(d, t).groups.len(),
{
}

/// A history never holds more steps than its limit after a step was pushed.
pub proof fn the_limit_bounds_the_depth(h: HistoryState, g: GroupState)
    requires
        h.wf(),
        h.limit is Some,
    ensures
        h.pushed(g).groups.len() <= h.limit->0,
        h.pushed(g).cursor == h.pushed(g).groups.len(),
        h.pushed(g).groups.len() > 0 ==> h.pushed(g).groups.last() == g,
{
    let groups = h.groups.take(h.cursor).push(g);
    let limit = h.limit->0;
    if groups.len() > limit {
        let kept = groups.skip(groups.len() - limit);
        if limit > 0 {
            assert(kept.last() == groups.last());
        }
    }
}

/// Changes recorded while a group is open add no step of their own: a group undoes
/// as one.
pub proof fn a_group_is_one_step(h: HistoryState, d: Delta, t: Seq<u8>)
    requires
        h.wf(),
        h.depth > 0,
    ensures
        h.recorded(d, t).cursor == h.cursor,
        h.recorded(d, t).open == if d.removed == d.inserted {
            h.open
        } else {
            h.open.push(d)
        },
{
}

/// Closing the outermost group with changes in it makes exactly one step, which
/// undoes them all and puts the caret back where the group began.
pub proof fn closing_a_group_pushes_it(h: HistoryState, cursor: Option<usize>)
    requires
        h.wf(),
        h.depth == 1,
        h.open.len() > 0,
        h.limit is None,
    ensures
        h.ended(cursor).cursor == h.cursor + 1,
        h.ended(cursor).undo_step() == (StepState {
            changes: history::inverses(h.open),
            cursor: h.open_from,
        }),
{
}

/// Inner groups change nothing but the nesting.
pub proof fn inner_groups_are_transparent(
    h: HistoryState,
    begin: Option<usize>,
    end: Option<usize>,
)
    requires
        h.wf(),
        h.depth > 0,
    ensures
        h.begun(begin).ended(end) == h,
{
}

/// The bytes that end row `row` of `t`.
pub open spec fn terminator(t: Seq<u8>, row: int) -> Seq<u8> {
    t.subrange(text::content_end(t, row), text::row_end(t, row))
}

/// Replacing a row's content by text without a line feed moves the row's end and
/// no row start up to it.
proof fn lemma_replace_row_extent(t: Seq<u8>, row: int, c: Seq<u8>)
    requires
        0 <= row < text::rows(t),
        forall|i: int| 0 <= i < c.len() ==> c[i] != 10u8,
    ensures
        ({
            let s = text::row_start(t, row);
            let e = text::content_end(t, row);
            let r = text::splice(t, s, e, c);
            &&& row < text::rows(r)
            &&& text::row_start(r, row) == s
            &&& text::row_end(r, row) == text::row_end(t, row) - e + s + c.len()
        }),
{
    let s = text::row_start(t, row);
    let e = text::content_end(t, row);
    let f = text::row_end(t, row);
    let n = c.len() as int;
    let r = text::splice(t, s, e, c);
    let g = f - e + s + n;
    text::lemma_rows(t, row);
    text::lemma_row_start(t, row);
    text::lemma_newlines_prefix(t, r, s);
    text::lemma_newlines_mono(r, s, r.len() as int);
    text::lemma_row_start(r, row);
    assert(text::starts_row(r, row, s));
    text::lemma_starts_row_unique(r, row, s, text::row_start(r, row));
    // the terminator holds the row's only line feed
    if row + 1 < text::rows(t) {
        assert(r[g - 1] == 10u8);
        assert forall|k: int| s <= k < g - 1 implies r[k] != 10u8 by {
            if k >= s + n {
                let j = k - n - s + e;
                assert(r[k] == t[j]);
                lemma_row_has_no_break(t, row, j);
            }
        }
        text::lemma_no_breaks(r, s, g - 1);
        assert(text::newlines(r, g) == row + 1);
        text::lemma_newlines_mono(r, g, r.len() as int);
        text::lemma_row_start(r, row + 1);
        assert(text::starts_row(r, row + 1, g));
        text::lemma_starts_row_unique(r, row + 1, g, text::row_start(r, row + 1));
    } else {
        assert forall|k: int| s <= k < g implies r[k] != 10u8 by {
            if k >= s + n {
                let j = k - n - s + e;
                assert(r[k] == t[j]);
                lemma_row_has_no_break(t, row, j);
            }
        }
        text::lemma_no_breaks(r, s, g);
    }
}

/// Only the last byte of a row is a line feed.
proof fn lemma_row_has_no_break(t: Seq<u8>, row: int, j: int)
    requires
        0 <= row < text::rows(t),
        text::row_start(t, row) <= j,
        j < text::row_end(t, row) - if row + 1 < text::rows(t) {
            1int
        } else {
            0int
        },
    ensures
        t[j] != 10u8,
{
    let s = text::row_start(t, row);
    let f = text::row_end(t, row);
    text::lemma_rows(t, row);
    text::lemma_row_start(t, row);
    text::lemma_newlines_mono(t, s, j);
    if row + 1 < text::rows(t) {
        text::lemma_row_start(t, row + 1);
        text::lemma_newlines_mono(t, j + 1, f - 1);
    } else {
        text::lemma_newlines_mono(t, j + 1, f);
    }
}

/// Replacing a row's content by text without a line feed gives the row that
/// content, unless a carriage return at its end joins the terminator.
#[verifier::rlimit(30)]
proof fn lemma_replace_row(t: Seq<u8>, row: int, c: Seq<u8>)
    requires
        0 <= row < text::rows(t),
        forall|i: int| 0 <= i < c.len() ==> c[i] != 10u8,
        !(c.len() > 0 && c.last() == 13u8 && terminator(t, row) == seq![10u8]),
    ensures
        ({
            let s = text::row_start(t, row);
            let r = text::splice(t, s, text::content_end(t, row), c);
            &&& row < text::rows(r)
            &&& text::row_start(r, row) == s
            &&& text::content_end(r, row) == s + c.len()
            &&& history::row_content(r, row) == c
        }),
{
    let s = text::row_start(t, row);
    let e = text::content_end(t, row);
    let f = text::row_end(t, row);
    let n = c.len() as int;
    let r = text::splice(t, s, e, c);
    let g = f - e + s + n;
    text::lemma_rows(t, row);
    lemma_replace_row_extent(t, row, c);
    assert forall|k: int| e <= k < f implies r[k - e + s + n] == t[k] by {}
    assert(f - e <= 2);
    if f == e + 2 {
        assert(t[f - 1] == 10u8 && t[f - 2] == 13u8);
        assert(r[g - 1] == t[f - 1] && r[g - 2] == t[f - 2]);
    } else if f == e + 1 {
        assert(r[g - 1] == t[e]);
        assert(terminator(t, row) =~= seq![10u8]);
        if n > 0 {
            assert(r[g - 2] == c.last());
        }
    } else if n > 0 {
        assert(r[g - 1] == c.last());
        lemma_no_break_at_end(c);
    }
    assert(text::content_end(r, row) == s + n);
    assert(history::row_content(r, row) =~= c);
}

proof fn lemma_no_break_at_end(c: Seq<u8>)
    requires
        c.len() > 0,
        forall|i: int| 0 <= i < c.len() ==> c[i] != 10u8,
    ensures
        c.last() != 10u8,
{
}

/// `U` restores the row to the remembered content, and a second `U` brings back
/// what the first displaced. The one exception is remembered content that ends in
/// a carriage return on a row that a line feed alone now ends: restored, that byte
/// becomes part of the terminator.
pub proof fn row_undo_toggles(h: HistoryState, t: Seq<u8>)
    requires
        h.wf(),
        valid_utf8(t),
        t.len() <= buffer::MAX_LEN,
        h.row_differs(t),
        h.row_delta(t).applied(t).len() <= buffer::MAX_LEN,
        !(h.row->0.content.len() > 0 && h.row->0.content.last() == 13u8 && terminator(
            t,
            h.row->0.row as int,
        ) == seq![10u8]),
    ensures
        ({
            let once = h.row_delta(t).applied(t);
            let g = h.row_undone(t);
            &&& history::row_content(once, h.row->0.row as int) == h.row->0.content
            &&& g.row_differs(once)
            &&& g.row_delta(once).applied(once) == t
            &&& g.row_undone(once).row == h.row
        }),
{
    let row = h.row->0.row as int;
    let s = text::row_start(t, row);
    let e = text::content_end(t, row);
    let c = h.row->0.content;
    text::lemma_rows(t, row);
    text::lemma_row_bounds(t, row);
    lemma_replace_row(t, row, c);
    text::lemma_splice(t, s, e, c);
    let once = h.row_delta(t).applied(t);
    let d = h.row_undone(t).row_delta(once);
    assert(d.applied(once) =~= t);
}

/// `U` is an ordinary step: it keeps a history with nothing open in step, so `u`
/// takes it back.
pub proof fn row_undo_keeps_step(h: HistoryState, t: Seq<u8>)
    requires
        h.wf(),
        in_step(h, t),
        h.open.len() == 0,
        h.row_differs(t),
        h.row_delta(t).applied(t).len() <= buffer::MAX_LEN,
    ensures
        in_step(h.row_undone(t), h.row_delta(t).applied(t)),
        h.limit is None ==> origin(h.row_undone(t), h.row_delta(t).applied(t)) == origin(h, t),
{
    reveal(in_step);
    reveal(settled);
    reveal(origin);
    let row = h.row->0.row as int;
    let d = h.row_delta(t);
    lemma_nothing_open(h, t);
    text::lemma_rows(t, row);
    text::lemma_row_bounds(t, row);
    let start = Some(text::row_start(t, row) as usize);
    let g = GroupState { changes: seq![d], before: start, after: start };
    assert(seq![d].drop_first() =~= Seq::<Delta>::empty());
    reveal_with_fuel(history::runs, 2);
    reveal_with_fuel(history::run, 2);
    assert(d.sized());
    assert(d.fits(t));
    edit::inverse_undoes(d, t);
    lemma_push(h, g, t);
    let r = h.row_undone(t);
    lemma_nothing_open(r, d.applied(t));
}

} // verus!
