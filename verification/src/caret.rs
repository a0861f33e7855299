//! What the editor promises of the caret: undo and redo put it back where the user
//! was.
//!
//! Every command runs inside a history group that begins with the caret before it and
//! ends with the caret after it. Groups nest, so the caret an insert session is undone
//! to is the one from before the session opened.

use vstd::prelude::*;

use crate::command::{
    Command, InsertAt, Motion, ObjectScope, Operator, Scroll, Target, TextObject, VisualKind,
};
use crate::document::DocumentState;
use crate::edit::Delta;
use crate::effect::Effect;
use crate::grapheme;
use crate::history::{GroupState, StepState};
use crate::key::Key;
use crate::motion::Extent;
use crate::pending;
use crate::pending::Outcome;
use crate::state;
use crate::state::{EditorState, Turn};
use crate::text;

verus! {

/// How many history groups are open beside that of an insert session.
pub open spec fn groups_open(s: EditorState) -> int {
    s.history.depth - if s.insert_group {
        1int
    } else {
        0int
    }
}

/// Whether `t` is in the groups that `s` was in, if it was in any.
pub open spec fn within(s: EditorState, t: EditorState) -> bool {
    groups_open(s) >= 1 ==> groups_open(t) == groups_open(s) && t.history.open_from
        == s.history.open_from && t.history.limit == s.history.limit
}

proof fn lemma_moves(a: Turn, motion: Motion<Seq<char>>, count: Option<usize>, scroll: Scroll)
    ensures
        within(a.state, a.moved(motion, count).state),
        within(a.state, a.jumped_back().state),
        within(a.state, a.jumped_forward().state),
        within(a.state, a.scrolled(scroll).state),
{
    reveal(Turn::moved);
    reveal(Turn::jumped_back);
    reveal(Turn::jumped_forward);
    reveal(Turn::scrolled);
}

proof fn lemma_rows_shifted(a: Turn, first: int, row: int, operator: Operator, columns: int)
    ensures
        within(a.state, a.rows_shifted(first, row, operator, columns).state),
    decreases row - first + 1,
{
    reveal(Turn::row_shifted);
    if row >= first {
        lemma_rows_shifted(
            a.row_shifted(row, operator, columns),
            first,
            row - 1,
            operator,
            columns,
        );
    }
}

proof fn lemma_performed(a: Turn, operator: Operator, extent: Extent, amount: usize)
    ensures
        within(a.state, a.performed(operator, extent, amount).state),
{
    reveal(Turn::performed);
    if operator.shifts() {
        if let Extent::Lines { first, last } = extent {
            let columns = pending::saturated(a.state.indent.shift_width * amount) as int;
            lemma_rows_shifted(a, first, last, operator, columns);
        }
    }
}

proof fn lemma_operated(a: Turn, operator: Operator, extent: Extent, amount: usize)
    ensures
        within(a.state, a.operated(operator, extent, amount).state),
{
    reveal(Turn::operated);
    let s = if a.state.mode is Visual {
        a.state.selection_marked()
    } else {
        a.state
    };
    let fs = if operator.fills() {
        s.yanked(extent)
    } else {
        s
    };
    lemma_performed(a.to(fs), operator, extent, amount);
}

proof fn lemma_operated_on(
    a: Turn,
    operator: Operator,
    target: Target<Seq<char>>,
    count: Option<usize>,
)
    ensures
        within(a.state, a.operated_on(operator, target, count).state),
{
    reveal(Turn::operated_on);
    let s = match target {
        Target::Motion(motion) => a.state.find_remembered(motion).search_remembered(motion),
        _ => a.state,
    };
    if let Some(extent) = s.target_extent(operator, target, count) {
        let amount = if s.mode is Visual {
            match count {
                Some(n) => n,
                None => 1,
            }
        } else {
            1
        };
        lemma_operated(a.to(s), operator, extent, amount);
    }
}

proof fn lemma_modes(
    a: Turn,
    scope: ObjectScope,
    object: TextObject,
    repeat: usize,
    at: InsertAt,
    kind: VisualKind,
)
    ensures
        within(a.state, a.object_selected(scope, object, repeat).state),
        within(a.state, a.insert_entered(at).state),
        within(a.state, a.replace_entered().state),
        within(a.state, a.visual_entered(kind).state),
        within(a.state, a.normal_entered().state),
{
    reveal(Turn::object_selected);
    reveal(Turn::insert_begun);
    reveal(Turn::insert_entered);
    reveal(Turn::visual_entered);
    reveal(Turn::normal_entered);
}

proof fn lemma_rows_joined(a: Turn, n: int)
    ensures
        within(a.state, a.rows_joined(n).state),
    decreases n,
{
    reveal(Turn::row_joined);
    let row = text::row_of(a.state.text, a.state.cursor);
    if n > 0 && row + 1 < text::rows(a.state.text) {
        lemma_rows_joined(a.row_joined(row), n - 1);
    }
}

proof fn lemma_char_edits(a: Turn, before: bool, ch: char, repeat: usize)
    ensures
        within(a.state, a.char_deleted(before, repeat).state),
        within(a.state, a.char_replaced(ch, repeat).state),
        within(a.state, a.case_swapped(repeat).state),
{
    reveal(Turn::char_deleted);
    reveal(Turn::char_replaced);
    reveal(Turn::case_swapped);
}

proof fn lemma_put(a: Turn, before: bool, repeat: usize)
    ensures
        within(a.state, a.put(before, repeat).state),
{
    reveal(Turn::put);
}

proof fn lemma_surround_changed(a: Turn, from: char, to: char)
    ensures
        within(a.state, a.surround_changed(from, to).state),
{
    reveal(Turn::surround_changed);
    reveal(Turn::delimiters_replaced);
}

proof fn lemma_surrounds(a: Turn, target: char)
    ensures
        within(a.state, a.surround_deleted(target).state),
        within(a.state, a.surrounded(target).state),
{
    reveal(Turn::surround_deleted);
    reveal(Turn::surrounded);
    reveal(Turn::delimiters_replaced);
}

proof fn lemma_typed(a: Turn, ch: char)
    ensures
        within(a.state, a.typed(ch).state),
        within(a.state, a.newline_typed().state),
        within(a.state, a.deleted_back_to(a.state.back_one()).state),
        within(a.state, a.word_deleted_back().state),
{
    reveal(Turn::typed);
    reveal(Turn::newline_typed);
    reveal(Turn::deleted_back_to);
    reveal(Turn::word_deleted_back);
}

proof fn lemma_reported(a: Turn, changes: Seq<Delta>, n: int)
    ensures
        within(a.state, a.reported(changes, n).state),
    decreases n,
{
    if n > 0 {
        lemma_reported(a, changes, n - 1);
    }
}

proof fn lemma_reverted(a: Turn)
    ensures
        within(a.state, a.undone().state),
        within(a.state, a.redone().state),
{
    reveal(Turn::undone);
    reveal(Turn::redone);
    reveal(Turn::reverted);
    assert forall|t: Turn, changes: Seq<Delta>, n: int| within(
        t.state,
        #[trigger] t.reported(changes, n).state,
    ) by {
        lemma_reported(t, changes, n);
    }
}

/// What a command that does not replay does stays within its group.
proof fn lemma_acted(a: Turn, command: Command<Seq<char>>, count: Option<usize>)
    requires
        !state::replays(command),
    ensures
        within(a.state, a.acted(command, count).state),
{
    reveal(Turn::acted);
    let repeat = match count {
        Some(n) => n,
        None => 1,
    };
    match command {
        Command::Move(motion) => {
            lemma_moves(a, motion, count, Scroll::Center);
        },
        Command::Operate { operator, target } => {
            lemma_operated_on(a, operator, target, count);
        },
        Command::SelectObject { scope, object } => {
            lemma_modes(a, scope, object, repeat, InsertAt::Cursor, VisualKind::Char);
        },
        Command::EnterInsert(at) => {
            lemma_modes(a, ObjectScope::Inner, TextObject::Paragraph, 1, at, VisualKind::Char);
        },
        Command::EnterVisual(kind) => {
            lemma_modes(a, ObjectScope::Inner, TextObject::Paragraph, 1, InsertAt::Cursor, kind);
        },
        Command::EnterReplace | Command::EnterNormal => {
            lemma_modes(
                a,
                ObjectScope::Inner,
                TextObject::Paragraph,
                1,
                InsertAt::Cursor,
                VisualKind::Char,
            );
        },
        Command::DeleteChar { before } => {
            lemma_char_edits(a, before, ' ', repeat);
        },
        Command::ReplaceChar(ch) => {
            lemma_char_edits(a, false, ch, repeat);
        },
        Command::ChangeSurround { from, to } => {
            lemma_surround_changed(a, from, to);
        },
        Command::DeleteSurround(target) => {
            lemma_surrounds(a, target);
        },
        Command::SurroundSelection(delimiter) => {
            lemma_surrounds(a, delimiter);
        },
        Command::JoinRows => {
            lemma_rows_joined(
                a,
                if repeat < 2 {
                    1
                } else {
                    repeat - 1
                },
            );
        },
        Command::Put { before } => {
            lemma_put(a, before, repeat);
        },
        Command::SwapCase => {
            lemma_char_edits(a, false, ' ', repeat);
        },
        Command::Undo | Command::Redo => {
            lemma_reverted(a);
        },
        Command::JumpBack | Command::JumpForward => {
            lemma_moves(a, Motion::Left, None, Scroll::Center);
        },
        Command::Scroll(scroll) => {
            lemma_moves(a, Motion::Left, None, scroll);
        },
        Command::InsertText(ch) => {
            lemma_typed(a, ch);
        },
        Command::InsertNewline | Command::DeleteBack | Command::DeleteWordBack => {
            lemma_typed(a, ' ');
        },
        _ => {},
    }
}

/// Remembering what a command did stays within its group.
proof fn lemma_remembered(
    s: EditorState,
    effects: Seq<Effect>,
    was_visual: bool,
    keys: Seq<Key>,
    command: Command<Seq<char>>,
)
    ensures
        s.change_marked(effects).history == s.history,
        s.change_marked(effects).insert_group == s.insert_group,
        s.change_marked(effects).cursor == s.cursor,
        s.shaped(was_visual, keys).history == s.history,
        s.shaped(was_visual, keys).insert_group == s.insert_group,
        s.noted(command, keys).history == s.history,
        s.noted(command, keys).insert_group == s.insert_group,
{
    reveal(EditorState::change_marked);
    reveal(EditorState::shaped);
    reveal(EditorState::noted);
}

proof fn lemma_handled(s: EditorState, key: Key, d: int)
    requires
        1 <= d <= 64,
    ensures
        within(s, state::handled(s, key, d).state),
    decreases 65 - d, 3int, 0int, 0int,
{
    reveal(EditorState::heard);
    let h = s.heard(key);
    let (pending, outcome) = h.pending.fed(key, h.mode, h.keymap);
    let p = EditorState { pending, ..h };
    if let Outcome::Command { command, count, keys } = outcome {
        lemma_ran(p, command, count, d);
        let t = state::ran(p, command, count, d);
        let was = p.mode is Visual;
        lemma_remembered(t.state, t.effects, was, keys, command);
        lemma_remembered(t.state.shaped(was, keys), t.effects, was, keys, command);
    }
}

proof fn lemma_ran(s: EditorState, command: Command<Seq<char>>, count: Option<usize>, d: int)
    requires
        1 <= d <= 64,
    ensures
        within(s, state::ran(s, command, count, d).state),
    decreases 65 - d, 2int, 0int, 0int,
{
    let begun = EditorState { history: s.history.begun(Some(s.cursor as usize)), ..s };
    lemma_dispatched(begun, command, count, d);
    let t = state::dispatched(begun, command, count, d);
    lemma_remembered(t.state, t.effects, false, Seq::empty(), command);
}

proof fn lemma_dispatched(
    s: EditorState,
    command: Command<Seq<char>>,
    count: Option<usize>,
    d: int,
)
    requires
        0 <= d <= 64,
    ensures
        within(s, state::dispatched(s, command, count, d).state),
    decreases 65 - d, 1int, 0int, 0int,
{
    if !state::replays(command) {
        lemma_acted(Turn { state: s, effects: Seq::empty() }, command, count);
    } else if let Some(script) = state::script_of(s, command) {
        if d < 64 {
            let times = match count {
                Some(n) => n as int,
                None => 1,
            };
            lemma_replayed(EditorState { replay_depth: d + 1, ..s }, script, times, 0, d + 1);
        }
    }
}

/// A command is in as many history groups after it as before, beside that of an insert
/// session.
pub proof fn a_command_stays_in_its_groups(
    s: EditorState,
    command: Command<Seq<char>>,
    count: Option<usize>,
    d: int,
)
    requires
        0 <= d <= 64,
        groups_open(s) >= 1,
    ensures
        groups_open(state::dispatched(s, command, count, d).state) == groups_open(s),
{
    lemma_dispatched(s, command, count, d);
}

proof fn lemma_replayed(s: EditorState, script: Seq<Key>, times: int, i: int, d: int)
    requires
        1 <= d <= 64,
    ensures
        within(s, state::replayed(s, script, times, i, d).state),
    decreases
            65 - d,
            4int,
            if times > 0 {
                times
            } else {
                0
            },
            script.len() - i,
{
    if times > 0 {
        if !(0 <= i < script.len()) {
            if script.len() > 0 {
                lemma_replayed(s, script, times - 1, 0, d);
            }
        } else {
            lemma_handled(s, script[i], d);
            lemma_replayed(state::handled(s, script[i], d).state, script, times, i + 1, d);
        }
    }
}

/// The changes a command has open before its group is closed.
pub open spec fn changes_of(s: EditorState, command: Command<Seq<char>>, count: Option<usize>) -> Seq<
    Delta,
> {
    let begun = EditorState { history: s.history.begun(Some(s.cursor as usize)), ..s };
    state::dispatched(begun, command, count, 0).state.history.open
}

/// The most recent undo step.
pub open spec fn latest(s: EditorState) -> GroupState {
    s.history.groups[s.history.cursor - 1]
}

/// A command that changes the text and leaves no session open is an undo step from
/// the caret before it to the caret after it. One that opens a session has the caret
/// before it remembered.
pub proof fn a_command_is_bracketed_by_the_caret(
    s: EditorState,
    command: Command<Seq<char>>,
    count: Option<usize>,
)
    requires
        s.history.depth == 0,
        !s.insert_group,
        s.history.limit matches Some(limit) ==> limit > 0,
    ensures
        ({
            let t = state::ran(s, command, count, 0).state;
            let changes = changes_of(s, command, count);
            if t.insert_group {
                t.history.open_from == Some(s.cursor as usize) && t.history.open == changes
            } else {
                changes.len() > 0 ==> t.history.cursor > 0 && latest(t) == (GroupState {
                    changes,
                    before: Some(s.cursor as usize),
                    after: Some(t.cursor as usize),
                })
            }
        }),
{
    let begun = EditorState { history: s.history.begun(Some(s.cursor as usize)), ..s };
    lemma_dispatched(begun, command, count, 0);
    let t = state::dispatched(begun, command, count, 0);
    lemma_remembered(t.state, t.effects, false, Seq::empty(), command);
}

/// A command inside an insert session leaves what the session began with alone; the
/// one that ends the session makes it one undo step, from the caret before the session
/// to the caret after it.
pub proof fn a_session_is_bracketed_by_the_caret(
    s: EditorState,
    command: Command<Seq<char>>,
    count: Option<usize>,
)
    requires
        s.history.depth == 1,
        s.insert_group,
        s.history.limit matches Some(limit) ==> limit > 0,
    ensures
        ({
            let t = state::ran(s, command, count, 0).state;
            let changes = changes_of(s, command, count);
            if t.insert_group {
                t.history.open_from == s.history.open_from && t.history.open == changes
            } else {
                changes.len() > 0 ==> t.history.cursor > 0 && latest(t) == (GroupState {
                    changes,
                    before: s.history.open_from,
                    after: Some(t.cursor as usize),
                })
            }
        }),
{
    let begun = EditorState { history: s.history.begun(Some(s.cursor as usize)), ..s };
    lemma_dispatched(begun, command, count, 0);
    let t = state::dispatched(begun, command, count, 0);
    lemma_remembered(t.state, t.effects, false, Seq::empty(), command);
}

proof fn lemma_reported_keeps(turn: Turn, changes: Seq<Delta>, n: int)
    ensures
        turn.reported(changes, n).state.text == turn.state.text,
        turn.reported(changes, n).state.mode == turn.state.mode,
    decreases n,
{
    if n > 0 {
        lemma_reported_keeps(turn, changes, n - 1);
    }
}

proof fn lemma_reverted_caret(turn: Turn, step: StepState, caret: usize)
    requires
        step.changes.len() > 0,
        step.cursor == Some(caret),
    ensures
        turn.reverted(step).state.text == turn.state.text,
        turn.reverted(step).state.cursor == grapheme::clamped(
            turn.state.text,
            caret as int,
            turn.state.rest(),
        ),
{
    reveal(Turn::reverted);
    lemma_reported_keeps(turn, step.changes, step.changes.len() as int);
}

/// Undo puts the caret where the step it takes back began: at the nearest place there
/// that the cursor may rest.
pub proof fn undo_puts_the_caret_back(turn: Turn, caret: usize)
    requires
        (DocumentState { text: turn.state.text, history: turn.state.history }).can_undo(),
        turn.state.history.undo_step().changes.len() > 0,
        turn.state.history.undo_step().cursor == Some(caret),
    ensures
        turn.undone().state.cursor == grapheme::clamped(
            turn.undone().state.text,
            caret as int,
            turn.state.rest(),
        ),
{
    reveal(Turn::undone);
    let s = turn.state;
    let after = (DocumentState { text: s.text, history: s.history }).undone();
    lemma_reverted_caret(
        turn.to(EditorState { text: after.text, history: after.history, ..s }),
        s.history.undo_step(),
        caret,
    );
}

/// Redo puts the caret where the step it takes again ended: at the nearest place there
/// that the cursor may rest.
pub proof fn redo_puts_the_caret_back(turn: Turn, caret: usize)
    requires
        (DocumentState { text: turn.state.text, history: turn.state.history }).can_redo(),
        turn.state.history.redo_step().changes.len() > 0,
        turn.state.history.redo_step().cursor == Some(caret),
    ensures
        turn.redone().state.cursor == grapheme::clamped(
            turn.redone().state.text,
            caret as int,
            turn.state.rest(),
        ),
{
    reveal(Turn::redone);
    let s = turn.state;
    let after = (DocumentState { text: s.text, history: s.history }).redone();
    lemma_reverted_caret(
        turn.to(EditorState { text: after.text, history: after.history, ..s }),
        s.history.redo_step(),
        caret,
    );
}

} // verus!
