//! What the editor promises of dot-repeat and macros: replaying keys does what
//! typing them does.
//!
//! A replay runs inside a history group of its own, one level deeper, and is not
//! recorded. Nothing a command does to the text depends on any of that, unless it
//! steps through the history, replays in turn or records.

use vstd::prelude::*;
use vstd::utf8::encode_utf8;

use crate::command::{
    Command, InsertAt, Motion, ObjectScope, Operator, Scroll, Target, TextObject, VisualKind,
};
use crate::caret;
use crate::document::DocumentState;
use crate::dot;
use crate::edit::Delta;
use crate::effect::Effect;
use crate::history::{HistoryState, StepState};
use crate::key::Key;
use crate::motion::Extent;
use crate::pending;
use crate::pending::{Outcome, PendingState};
use crate::state;
use crate::state::{EditorState, Property, Turn};
use crate::text;

verus! {

/// Whether two states differ in nothing but the history, the replay depth and the
/// recording.
pub open spec fn alike(s: EditorState, t: EditorState) -> bool {
    t == (EditorState {
        history: t.history,
        replay_depth: t.replay_depth,
        recording: t.recording,
        ..s
    })
}

/// Whether two states differ in nothing but the history, the recording and the keys
/// remembered for replays.
pub open spec fn kin(s: EditorState, t: EditorState) -> bool {
    t == (EditorState {
        history: t.history,
        replay_depth: t.replay_depth,
        recording: t.recording,
        last_change: t.last_change,
        change_keys: t.change_keys,
        visual_keys: t.visual_keys,
        macros: t.macros,
        ..s
    })
}

/// Whether what can be undone and redone is the same for both histories, as long as no
/// change is open in `g`; and whether in any case both have something to redo, or
/// neither has.
pub open spec fn concur(g: HistoryState, h: HistoryState) -> bool {
    &&& 0 <= g.cursor <= g.groups.len()
    &&& 0 <= h.cursor <= h.groups.len()
    &&& g.cursor < g.groups.len() <==> h.cursor < h.groups.len()
    &&& g.open.len() > 0 || h.open.len() > 0 ==> g.cursor == g.groups.len()
    &&& g.open.len() == 0 ==> h.open.len() == 0 && h.groups == g.groups && h.cursor == g.cursor
}

/// Whether two turns differ in nothing else, within a command.
pub open spec fn kin_turns(a: Turn, b: Turn) -> bool {
    &&& a.effects == b.effects
    &&& kin(a.state, b.state)
    &&& concur(a.state.history, b.state.history)
    &&& caret::groups_open(a.state) >= 1
    &&& caret::groups_open(b.state) >= 1
}

/// Whether two states differ in nothing else, between commands, the first of them in a
/// replay.
pub open spec fn kindred(s: EditorState, t: EditorState) -> bool {
    &&& kin(s, t)
    &&& concur(s.history, t.history)
    &&& caret::groups_open(s) >= 1
    &&& caret::groups_open(t) >= 0
}

/// Commands whose outcome rests on the history or the replay depth: an undo with changes
/// open, and a replay as deep as replays go.
pub open spec fn situated() -> Property {
    |s: EditorState, command: Command<Seq<char>>|
        {
            ||| command is Undo && s.history.open.len() > 0
            ||| state::replays(command) && s.replay_depth >= state::MAX_REPLAY_DEPTH
        }
}

/// Whether any key of `script`, typed `times` times from its `i`th key on, stops a
/// recording.
pub open spec fn stops_any(s: EditorState, script: Seq<Key>, times: int, i: int) -> bool
    decreases
            if times > 0 {
                times
            } else {
                0
            },
            script.len() - i,
{
    if times <= 0 {
        false
    } else if !(0 <= i < script.len()) {
        script.len() > 0 && stops_any(s, script, times - 1, 0)
    } else {
        state::stops_recording(s, script[i], 0) || stops_any(
            state::handled(s, script[i], 0).state,
            script,
            times,
            i + 1,
        )
    }
}

proof fn lemma_edited(a: Turn, b: Turn, from: int, to: int, new: Seq<u8>)
    requires
        kin_turns(a, b),
    ensures
        kin_turns(a.edited(from, to, new), b.edited(from, to, new)),
{
}

proof fn lemma_moved(a: Turn, b: Turn, motion: Motion<Seq<char>>, count: Option<usize>)
    requires
        kin_turns(a, b),
    ensures
        kin_turns(a.moved(motion, count), b.moved(motion, count)),
{
    reveal(Turn::moved);
}

proof fn lemma_jumps(a: Turn, b: Turn, scroll: Scroll)
    requires
        kin_turns(a, b),
    ensures
        kin_turns(a.jumped_back(), b.jumped_back()),
        kin_turns(a.jumped_forward(), b.jumped_forward()),
        kin_turns(a.scrolled(scroll), b.scrolled(scroll)),
{
    reveal(Turn::jumped_back);
    reveal(Turn::jumped_forward);
    reveal(Turn::scrolled);
}

proof fn lemma_rows_shifted(
    a: Turn,
    b: Turn,
    first: int,
    row: int,
    operator: Operator,
    columns: int,
)
    requires
        kin_turns(a, b),
    ensures
        kin_turns(
            a.rows_shifted(first, row, operator, columns),
            b.rows_shifted(first, row, operator, columns),
        ),
    decreases row - first + 1,
{
    reveal(Turn::row_shifted);
    if row >= first {
        lemma_rows_shifted(
            a.row_shifted(row, operator, columns),
            b.row_shifted(row, operator, columns),
            first,
            row - 1,
            operator,
            columns,
        );
    }
}

proof fn lemma_performed(a: Turn, b: Turn, operator: Operator, extent: Extent, amount: usize)
    requires
        kin_turns(a, b),
    ensures
        kin_turns(
            a.performed(operator, extent, amount),
            b.performed(operator, extent, amount),
        ),
{
    reveal(Turn::performed);
    if operator.shifts() {
        if let Extent::Lines { first, last } = extent {
            let columns = pending::saturated(a.state.indent.shift_width * amount) as int;
            lemma_rows_shifted(a, b, first, last, operator, columns);
        }
    }
}

proof fn lemma_operated(a: Turn, b: Turn, operator: Operator, extent: Extent, amount: usize)
    requires
        kin_turns(a, b),
    ensures
        kin_turns(
            a.operated(operator, extent, amount),
            b.operated(operator, extent, amount),
        ),
{
    reveal(Turn::operated);
    let s = if a.state.mode is Visual {
        a.state.selection_marked()
    } else {
        a.state
    };
    let t = if b.state.mode is Visual {
        b.state.selection_marked()
    } else {
        b.state
    };
    assert(kin(s, t));
    let fs = if operator.fills() {
        s.yanked(extent)
    } else {
        s
    };
    let ft = if operator.fills() {
        t.yanked(extent)
    } else {
        t
    };
    assert(kin(fs, ft));
    lemma_performed(a.to(fs), b.to(ft), operator, extent, amount);
}

proof fn lemma_operated_on(
    a: Turn,
    b: Turn,
    operator: Operator,
    target: Target<Seq<char>>,
    count: Option<usize>,
)
    requires
        kin_turns(a, b),
    ensures
        kin_turns(
            a.operated_on(operator, target, count),
            b.operated_on(operator, target, count),
        ),
{
    reveal(Turn::operated_on);
    let s = match target {
        Target::Motion(motion) => a.state.find_remembered(motion).search_remembered(motion),
        _ => a.state,
    };
    let t = match target {
        Target::Motion(motion) => b.state.find_remembered(motion).search_remembered(motion),
        _ => b.state,
    };
    assert(kin(s, t));
    assert(s.target_extent(operator, target, count) == t.target_extent(operator, target, count));
    if let Some(extent) = s.target_extent(operator, target, count) {
        let amount = if s.mode is Visual {
            match count {
                Some(n) => n,
                None => 1,
            }
        } else {
            1
        };
        lemma_operated(a.to(s), b.to(t), operator, extent, amount);
    }
}

proof fn lemma_object_selected(
    a: Turn,
    b: Turn,
    scope: ObjectScope,
    object: TextObject,
    repeat: usize,
)
    requires
        kin_turns(a, b),
    ensures
        kin_turns(
            a.object_selected(scope, object, repeat),
            b.object_selected(scope, object, repeat),
        ),
{
    reveal(Turn::object_selected);
}

proof fn lemma_insert_entered(a: Turn, b: Turn, at: InsertAt)
    requires
        kin_turns(a, b),
    ensures
        kin_turns(a.insert_entered(at), b.insert_entered(at)),
        kin_turns(a.replace_entered(), b.replace_entered()),
{
    reveal(Turn::insert_begun);
    reveal(Turn::insert_entered);
}

proof fn lemma_visual_entered(a: Turn, b: Turn, kind: VisualKind)
    requires
        kin_turns(a, b),
    ensures
        kin_turns(a.visual_entered(kind), b.visual_entered(kind)),
        kin_turns(a.normal_entered(), b.normal_entered()),
{
    reveal(Turn::visual_entered);
    reveal(Turn::normal_entered);
}

proof fn lemma_rows_joined(a: Turn, b: Turn, n: int)
    requires
        kin_turns(a, b),
    ensures
        kin_turns(a.rows_joined(n), b.rows_joined(n)),
    decreases n,
{
    reveal(Turn::row_joined);
    let row = text::row_of(a.state.text, a.state.cursor);
    if n > 0 && row + 1 < text::rows(a.state.text) {
        lemma_rows_joined(a.row_joined(row), b.row_joined(row), n - 1);
    }
}

proof fn lemma_char_edits(a: Turn, b: Turn, before: bool, ch: char, repeat: usize)
    requires
        kin_turns(a, b),
    ensures
        kin_turns(a.char_deleted(before, repeat), b.char_deleted(before, repeat)),
        kin_turns(a.char_replaced(ch, repeat), b.char_replaced(ch, repeat)),
        kin_turns(a.case_swapped(repeat), b.case_swapped(repeat)),
{
    reveal(Turn::char_deleted);
    reveal(Turn::char_replaced);
    reveal(Turn::case_swapped);
}

proof fn lemma_put(a: Turn, b: Turn, before: bool, repeat: usize)
    requires
        kin_turns(a, b),
    ensures
        kin_turns(a.put(before, repeat), b.put(before, repeat)),
{
    reveal(Turn::put);
}

proof fn lemma_delimiters_replaced(
    a: Turn,
    b: Turn,
    offsets: (int, int, int, int),
    opening: Seq<u8>,
    closing: Seq<u8>,
)
    requires
        kin_turns(a, b),
    ensures
        kin_turns(
            a.delimiters_replaced(offsets, opening, closing),
            b.delimiters_replaced(offsets, opening, closing),
        ),
{
    reveal(Turn::delimiters_replaced);
    let (open, close, open_width, close_width) = offsets;
    let pad: int = if a.state.padded(open, close, open_width) {
        1
    } else {
        0
    };
    lemma_edited(a, b, close - pad, close + close_width, closing);
    lemma_edited(
        a.edited(close - pad, close + close_width, closing),
        b.edited(close - pad, close + close_width, closing),
        open,
        open + open_width + pad,
        opening,
    );
}

proof fn lemma_surround_changed(a: Turn, b: Turn, from: char, to: char)
    requires
        kin_turns(a, b),
    ensures
        kin_turns(a.surround_changed(from, to), b.surround_changed(from, to)),
{
    reveal(Turn::surround_changed);
    if let (Some((open, close, padding)), Some(offsets)) = (
        state::surround_pair(to),
        a.state.surround_offsets(from),
    ) {
        let opening = if padding {
            encode_utf8(seq![open, ' '])
        } else {
            encode_utf8(seq![open])
        };
        let closing = if padding {
            encode_utf8(seq![' ', close])
        } else {
            encode_utf8(seq![close])
        };
        lemma_delimiters_replaced(a, b, offsets, opening, closing);
    }
}

proof fn lemma_surround_deleted(a: Turn, b: Turn, target: char)
    requires
        kin_turns(a, b),
    ensures
        kin_turns(a.surround_deleted(target), b.surround_deleted(target)),
{
    reveal(Turn::surround_deleted);
    if let Some(offsets) = a.state.surround_offsets(target) {
        lemma_delimiters_replaced(a, b, offsets, Seq::empty(), Seq::empty());
    }
}

#[verifier::rlimit(40)]
proof fn lemma_surrounded(a: Turn, b: Turn, delimiter: char)
    requires
        kin_turns(a, b),
    ensures
        kin_turns(a.surrounded(delimiter), b.surrounded(delimiter)),
{
    reveal(Turn::surrounded);
    let s = a.state;
    if let (Some((open, close, padding)), Some(extent)) = (
        state::surround_pair(delimiter),
        s.selected(),
    ) {
        let (from, to, opening, closing) = match extent {
            Extent::Lines { first, last } => (
                text::row_start(s.text, first),
                text::content_end(s.text, last),
                encode_utf8(seq![open, '\n']),
                encode_utf8(seq!['\n', close]),
            ),
            Extent::Chars { start, end } => (
                start,
                end,
                if padding {
                    encode_utf8(seq![open, ' '])
                } else {
                    encode_utf8(seq![open])
                },
                if padding {
                    encode_utf8(seq![' ', close])
                } else {
                    encode_utf8(seq![close])
                },
            ),
        };
        let m = a.to(s.selection_marked());
        let n = b.to(b.state.selection_marked());
        lemma_edited(m, n, to, to, closing);
        lemma_edited(
            m.edited(to, to, closing),
            n.edited(to, to, closing),
            from,
            from,
            opening,
        );
        lemma_around(
            m.edited(to, to, closing).edited(from, from, opening),
            n.edited(to, to, closing).edited(from, from, opening),
            from,
        );
    }
}

proof fn lemma_around(a: Turn, b: Turn, at: int)
    requires
        kin_turns(a, b),
    ensures
        ({
            let s = a.visual_left(false);
            let t = b.visual_left(false);
            kin_turns(s.to(s.state.placed(at)), t.to(t.state.placed(at)))
        }),
{
}

proof fn lemma_typed(a: Turn, b: Turn, ch: char)
    requires
        kin_turns(a, b),
    ensures
        kin_turns(a.typed(ch), b.typed(ch)),
        kin_turns(a.newline_typed(), b.newline_typed()),
        kin_turns(
            a.deleted_back_to(a.state.back_one()),
            b.deleted_back_to(b.state.back_one()),
        ),
        kin_turns(a.word_deleted_back(), b.word_deleted_back()),
{
    reveal(Turn::typed);
    reveal(Turn::newline_typed);
    reveal(Turn::deleted_back_to);
    reveal(Turn::word_deleted_back);
}

proof fn lemma_reported(a: Turn, b: Turn, changes: Seq<Delta>, n: int)
    requires
        kin_turns(a, b),
    ensures
        kin_turns(a.reported(changes, n), b.reported(changes, n)),
    decreases n,
{
    if n > 0 {
        lemma_reported(a, b, changes, n - 1);
    }
}

proof fn lemma_reverted(a: Turn, b: Turn, step: StepState)
    requires
        kin_turns(a, b),
    ensures
        kin_turns(a.reverted(step), b.reverted(step)),
{
    reveal(Turn::reverted);
    lemma_reported(a, b, step.changes, step.changes.len() as int);
}

/// With no change open in the first, both states undo and redo the same step.
proof fn lemma_stepped(a: Turn, b: Turn)
    requires
        kin_turns(a, b),
    ensures
        a.state.history.open.len() == 0 ==> kin_turns(a.undone(), b.undone()),
        kin_turns(a.redone(), b.redone()),
{
    reveal(Turn::undone);
    reveal(Turn::redone);
    let g = a.state.history;
    let s = DocumentState { text: a.state.text, history: g };
    let t = DocumentState { text: b.state.text, history: b.state.history };
    assert(s.history.redo_step() == t.history.redo_step());
    let ra = a.to(EditorState { text: s.redone().text, history: s.redone().history, ..a.state });
    let rb = b.to(EditorState { text: t.redone().text, history: t.redone().history, ..b.state });
    lemma_reverted(ra, rb, g.redo_step());
    if g.open.len() == 0 {
        let ua = a.to(EditorState { text: s.undone().text, history: s.undone().history, ..a.state });
        let ub = b.to(EditorState { text: t.undone().text, history: t.undone().history, ..b.state });
        lemma_reverted(ua, ub, g.undo_step());
    }
}

/// A command that replays nothing does the same to states that are kin, unless it is
/// situated.
pub proof fn a_command_does_the_same_to_kin(a: Turn, b: Turn, command: Command<Seq<char>>, count: Option<usize>)
    requires
        kin_turns(a, b),
        !state::replays(command),
        command is Undo ==> a.state.history.open.len() == 0,
    ensures
        kin_turns(a.acted(command, count), b.acted(command, count)),
{
    reveal(Turn::acted);
    let repeat = match count {
        Some(n) => n,
        None => 1,
    };
    match command {
        Command::Move(motion) => {
            lemma_moved(a, b, motion, count);
        },
        Command::Operate { operator, target } => {
            lemma_operated_on(a, b, operator, target, count);
        },
        Command::SelectObject { scope, object } => {
            lemma_object_selected(a, b, scope, object, repeat);
        },
        Command::EnterInsert(at) => {
            lemma_insert_entered(a, b, at);
        },
        Command::EnterVisual(kind) => {
            lemma_visual_entered(a, b, kind);
        },
        Command::EnterReplace => {
            lemma_insert_entered(a, b, InsertAt::Cursor);
        },
        Command::EnterNormal => {
            lemma_visual_entered(a, b, VisualKind::Char);
        },
        Command::DeleteChar { before } => {
            lemma_char_edits(a, b, before, ' ', repeat);
        },
        Command::ReplaceChar(ch) => {
            lemma_char_edits(a, b, false, ch, repeat);
        },
        Command::ChangeSurround { from, to } => {
            lemma_surround_changed(a, b, from, to);
        },
        Command::DeleteSurround(target) => {
            lemma_surround_deleted(a, b, target);
        },
        Command::SurroundSelection(delimiter) => {
            lemma_surrounded(a, b, delimiter);
        },
        Command::JoinRows => {
            lemma_rows_joined(
                a,
                b,
                if repeat < 2 {
                    1
                } else {
                    repeat - 1
                },
            );
        },
        Command::Put { before } => {
            lemma_put(a, b, before, repeat);
        },
        Command::SwapCase => {
            lemma_char_edits(a, b, false, ' ', repeat);
        },
        Command::Undo | Command::Redo => {
            lemma_stepped(a, b);
        },
        Command::SetMark(_) => {},
        Command::JumpBack | Command::JumpForward => {
            lemma_jumps(a, b, Scroll::Center);
        },
        Command::Scroll(scroll) => {
            lemma_jumps(a, b, scroll);
        },
        Command::CommandPrompt => {},
        Command::InsertText(ch) => {
            lemma_typed(a, b, ch);
        },
        Command::InsertNewline | Command::DeleteBack | Command::DeleteWordBack => {
            lemma_typed(a, b, ' ');
        },
        _ => {},
    }
}

/// What running a command that replays nothing does is the same, at whatever depth.
pub proof fn a_command_runs_the_same_deeper(
    s: EditorState,
    t: EditorState,
    command: Command<Seq<char>>,
    count: Option<usize>,
    d: int,
    e: int,
)
    requires
        kindred(s, t),
        !state::replays(command),
        command is Undo ==> s.history.open.len() == 0,
    ensures
        kindred(state::ran(s, command, count, d).state, state::ran(t, command, count, e).state),
        state::ran(s, command, count, d).effects == state::ran(t, command, count, e).effects,
{
    let bs = EditorState { history: s.history.begun(Some(s.cursor as usize)), ..s };
    let bt = EditorState { history: t.history.begun(Some(t.cursor as usize)), ..t };
    let a = Turn { state: bs, effects: Seq::empty() };
    let b = Turn { state: bt, effects: Seq::empty() };
    a_command_does_the_same_to_kin(a, b, command, count);
    caret::a_command_stays_in_its_groups(bs, command, count, 0);
    lemma_closed(a.acted(command, count), b.acted(command, count));
}

/// The group of a command closed, in states that are kin.
proof fn lemma_closed(a: Turn, b: Turn)
    requires
        kin_turns(a, b),
        caret::groups_open(a.state) >= 2,
    ensures
        ({
            let m = a.state.change_marked(a.effects);
            let n = b.state.change_marked(b.effects);
            kindred(
                EditorState { history: m.history.ended(Some(m.cursor as usize)), ..m },
                EditorState { history: n.history.ended(Some(n.cursor as usize)), ..n },
            )
        }),
{
    reveal(EditorState::change_marked);
}

/// Whether two states are kindred and remember the same keys, too.
pub open spec fn paired(s: EditorState, t: EditorState) -> bool {
    kindred(s, t) && dot::untold(s, t)
}

/// What one key does is the same `d` replays deep and `e` replays deep.
proof fn lemma_handled(s: EditorState, t: EditorState, key: Key, d: int, e: int)
    requires
        paired(s, t),
        0 <= e < d <= 64,
        !state::meets(s, key, d, situated()),
        !state::stops_recording(t, key, e),
    ensures
        paired(state::handled(s, key, d).state, state::handled(t, key, e).state),
        state::handled(s, key, d).effects == state::handled(t, key, e).effects,
    decreases 65 - d, 3int, 0int, 0int,
{
    reveal(EditorState::heard);
    let hs = s.heard(key);
    let ht = t.heard(key);
    let (pending, outcome) = hs.pending.fed(key, hs.mode, hs.keymap);
    let ps = EditorState { pending, ..hs };
    let pt = EditorState { pending, ..ht };
    assert(paired(ps, pt));
    if let Outcome::Command { command, count, keys } = outcome {
        lemma_ran(ps, pt, command, count, d, e);
        let a = state::ran(ps, command, count, d);
        let b = state::ran(pt, command, count, e);
        let was = ps.mode is Visual;
        assert(paired(
            a.state.shaped(was, keys).noted(command, keys),
            b.state.shaped(was, keys).noted(command, keys),
        )) by {
            reveal(EditorState::shaped);
            reveal(EditorState::noted);
        }
    }
}

proof fn lemma_ran(
    s: EditorState,
    t: EditorState,
    command: Command<Seq<char>>,
    count: Option<usize>,
    d: int,
    e: int,
)
    requires
        paired(s, t),
        0 <= e < d <= 64,
        !state::runs_any(
            EditorState { history: s.history.begun(Some(s.cursor as usize)), ..s },
            command,
            count,
            d,
            situated(),
        ),
    ensures
        paired(state::ran(s, command, count, d).state, state::ran(t, command, count, e).state),
        state::ran(s, command, count, d).effects == state::ran(t, command, count, e).effects,
    decreases 65 - d, 2int, 0int, 0int,
{
    let bs = EditorState { history: s.history.begun(Some(s.cursor as usize)), ..s };
    let bt = EditorState { history: t.history.begun(Some(t.cursor as usize)), ..t };
    lemma_dispatched(bs, bt, command, count, d, e);
    let a = state::dispatched(bs, command, count, d);
    let b = state::dispatched(bt, command, count, e);
    assert(caret::groups_open(a.state) == caret::groups_open(bs)) by {
        caret::a_command_stays_in_its_groups(bs, command, count, d);
    }
    lemma_closed(a, b);
    assert(dot::untold(a.state, a.state.change_marked(a.effects)) && dot::untold(
        b.state,
        b.state.change_marked(b.effects),
    )) by {
        reveal(EditorState::change_marked);
    }
}

proof fn lemma_dispatched(
    s: EditorState,
    t: EditorState,
    command: Command<Seq<char>>,
    count: Option<usize>,
    d: int,
    e: int,
)
    requires
        paired(s, t),
        caret::groups_open(t) >= 1,
        0 <= e < d <= 64,
        !state::runs_any(s, command, count, d, situated()),
    ensures
        kin_turns(
            state::dispatched(s, command, count, d),
            state::dispatched(t, command, count, e),
        ),
        dot::untold(
            state::dispatched(s, command, count, d).state,
            state::dispatched(t, command, count, e).state,
        ),
    decreases 65 - d, 1int, 0int, 0int,
{
    assert(!situated()(EditorState { replay_depth: d, ..s }, command));
    caret::a_command_stays_in_its_groups(t, command, count, e);
    if !state::replays(command) {
        let a = Turn { state: s, effects: Seq::empty() };
        let b = Turn { state: t, effects: Seq::empty() };
        a_command_does_the_same_to_kin(a, b, command, count);
        dot::a_command_keeps_what_is_remembered(a, command, count);
        dot::a_command_keeps_what_is_remembered(b, command, count);
    } else if let Some(script) = state::script_of(s, command) {
        let times = match count {
            Some(n) => n as int,
            None => 1,
        };
        lemma_replayed(
            EditorState { replay_depth: d + 1, ..s },
            EditorState { replay_depth: e + 1, ..t },
            script,
            times,
            0,
            d + 1,
            e + 1,
        );
    }
}

proof fn lemma_replayed(
    s: EditorState,
    t: EditorState,
    script: Seq<Key>,
    times: int,
    i: int,
    d: int,
    e: int,
)
    requires
        paired(s, t),
        0 <= e < d <= 64,
        !state::replays_any(s, script, times, i, d, situated()),
        e > 0 || !stops_any(t, script, times, i),
    ensures
        paired(
            state::replayed(s, script, times, i, d).state,
            state::replayed(t, script, times, i, e).state,
        ),
        state::replayed(s, script, times, i, d).effects == state::replayed(
            t,
            script,
            times,
            i,
            e,
        ).effects,
    decreases
            65 - d,
            4int,
            if times > 0 {
                times
            } else {
                0
            },
            script.len() - i,
{
    if times > 0 {
        if !(0 <= i < script.len()) {
            if script.len() > 0 {
                lemma_replayed(s, t, script, times - 1, 0, d, e);
            }
        } else {
            lemma_handled(s, t, script[i], d, e);
            lemma_replayed(
                state::handled(s, script[i], d).state,
                state::handled(t, script[i], e).state,
                script,
                times,
                i + 1,
                d,
                e,
            );
        }
    }
}

/// Typing a script once is feeding its keys one after the other.
pub proof fn typed_once(s: EditorState, script: Seq<Key>, i: int)
    requires
        0 <= i <= script.len(),
    ensures
        state::replayed(s, script, 1, i, 0) == state::all_handled(s, script, i, 0),
    decreases script.len() - i,
{
    if i < script.len() {
        typed_once(state::handled(s, script[i], 0).state, script, i + 1);
    } else if script.len() > 0 {
        assert(state::replayed(s, script, 0, 0, 0).state == s);
    }
}

/// Remembering edits and the keys of a selection, in states that are alike.
proof fn lemma_remembered(
    s: EditorState,
    t: EditorState,
    effects: Seq<Effect>,
    was_visual: bool,
    keys: Seq<Key>,
)
    requires
        alike(s, t),
    ensures
        alike(s.change_marked(effects), t.change_marked(effects)),
        alike(s.shaped(was_visual, keys), t.shaped(was_visual, keys)),
{
    reveal(EditorState::change_marked);
    reveal(EditorState::shaped);
}

/// A replay does what typing its script does, as many times as its count says: to
/// the text, the cursor, the mode, the selection, the register, the jumps and all
/// else. What differs is what comes of its being one command: it is one undo step,
/// is not recorded as its keys, remembers the extent of the whole in the `[` and `]`
/// marks, and is one command among those that shape a selection. The script must run
/// no command that depends on where it runs, nor stop a recording.
pub proof fn a_replay_does_what_typing_does(s: EditorState, key: Key)
    requires
        s.history.wf(),
        s.history.open.len() > 0 ==> s.history.cursor == s.history.groups.len(),
        caret::groups_open(s) >= 0,
        s.change_keys is None,
        !state::stops_recording(s, key, 0),
        ({
            &&& s.pending.fed(key, s.mode, s.keymap).1 matches Outcome::Command {
                command,
                count,
                ..
            }
            &&& state::script_of(s, command) matches Some(script)
            &&& !state::meets(s, key, 0, situated())
            &&& !stops_any(
                EditorState { pending: PendingState::fresh(), ..s },
                script,
                match count {
                    Some(n) => n as int,
                    None => 1,
                },
                0,
            )
        }),
    ensures
        s.pending.fed(key, s.mode, s.keymap).1 matches Outcome::Command {
            command,
            count,
            ..
        } && state::script_of(s, command) matches Some(script) && ({
            let replay = state::handled(s, key, 0);
            let typed = state::replayed(
                EditorState { pending: PendingState::fresh(), ..s },
                script,
                match count {
                    Some(n) => n as int,
                    None => 1,
                },
                0,
                0,
            );
            &&& replay.effects == typed.effects
            &&& alike(
                replay.state,
                typed.state.change_marked(typed.effects).shaped(
                    s.mode is Visual,
                    s.pending.keys.push(key),
                ),
            )
        }),
{
    reveal(EditorState::heard);
    pending::the_parser_always_resets(s.pending, key, s.mode, s.keymap);
    let h = s.heard(key);
    let (pending, outcome) = h.pending.fed(key, h.mode, h.keymap);
    let p = EditorState { pending, ..h };
    if let Outcome::Command { command, count, keys } = outcome {
        if let Some(script) = state::script_of(s, command) {
            let times = match count {
                Some(n) => n as int,
                None => 1,
            };
            let begun = EditorState { history: p.history.begun(Some(p.cursor as usize)), ..p };
            let idle = EditorState { pending: PendingState::fresh(), ..s };
            let deep = EditorState { replay_depth: 1, ..begun };
            assert(state::runs_any(begun, command, count, 0, situated()) == state::meets(
                s,
                key,
                0,
                situated(),
            ));
            lemma_replayed(deep, idle, script, times, 0, 1, 0);
            let done = state::dispatched(begun, command, count, 0);
            let typed = state::replayed(idle, script, times, 0, 0);
            assert(alike(
                EditorState { replay_depth: 0, ..done.state },
                EditorState { replay_depth: 0, ..typed.state },
            ) && done.effects == typed.effects);
            let was = s.mode is Visual;
            lemma_remembered(done.state, typed.state, typed.effects, was, keys);
            let run = state::ran(p, command, count, 0);
            let marked = typed.state.change_marked(typed.effects);
            assert(alike(run.state, marked));
            lemma_remembered(run.state, marked, typed.effects, was, keys);
            let shaped = run.state.shaped(was, keys);
            assert(shaped.noted(command, keys) == shaped) by {
                reveal(EditorState::noted);
            }
        }
    }
}

/// `.` repeats the last change: it leaves the text, the cursor, the mode, the
/// selection and the register as typing the keys of that change again would, and
/// reports the same effects.
pub proof fn dot_repeats_the_last_change(s: EditorState, dot: Key)
    requires
        s.wf(),
        s.replay_depth == 0,
        s.history.open.len() > 0 ==> s.history.cursor == s.history.groups.len(),
        s.pending.idle(),
        s.change_keys is None,
        s.last_change.len() > 0,
        s.pending.fed(dot, s.mode, s.keymap).1 == (Outcome::Command {
            command: Command::Repeat,
            count: None,
            keys: seq![dot],
        }),
        !state::stops_recording(s, dot, 0),
        !state::meets(s, dot, 0, situated()),
        !stops_any(s, s.last_change, 1, 0),
    ensures
        ({
            let replay = state::handled(s, dot, 0);
            let typed = state::all_handled(s, s.last_change, 0, 0);
            &&& replay.effects == typed.effects
            &&& replay.state.text == typed.state.text
            &&& replay.state.cursor == typed.state.cursor
            &&& replay.state.mode == typed.state.mode
            &&& replay.state.selection() == typed.state.selection()
            &&& replay.state.register == typed.state.register
        }),
{
    pending::an_idle_parser_is_empty(s.pending);
    assert(EditorState { pending: PendingState::fresh(), ..s } == s);
    a_replay_does_what_typing_does(s, dot);
    typed_once(s, s.last_change, 0);
    reveal(EditorState::change_marked);
    reveal(EditorState::shaped);
}

} // verus!
