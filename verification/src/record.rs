//! What the editor promises of recording: a macro is the keys typed between `q` and
//! `q`, and nothing else.

use vstd::prelude::*;

use crate::command::{
    Command, InsertAt, Mode, Motion, ObjectScope, Operator, Scroll, Target, TextObject, VisualKind,
};
use crate::edit::Delta;
use crate::effect::Effect;
use crate::key;
use crate::key::Key;
use crate::motion::Extent;
use crate::pending;
use crate::pending::Outcome;
use crate::repeat;
use crate::state;
use crate::state::{EditorState, Property, Turn};
use crate::text;

verus! {

/// Whether the recording, the macros and the replay depth are the same in both
/// states.
pub open spec fn steady(s: EditorState, t: EditorState) -> bool {
    &&& t.recording == s.recording
    &&& t.macros == s.macros
    &&& t.replay_depth == s.replay_depth
}

/// Commands that begin a recording.
pub open spec fn starting() -> Property {
    |s: EditorState, command: Command<Seq<char>>| command is RecordMacro
}

proof fn lemma_moves(a: Turn, motion: Motion<Seq<char>>, count: Option<usize>, scroll: Scroll)
    ensures
        steady(a.state, a.moved(motion, count).state),
        steady(a.state, a.jumped_back().state),
        steady(a.state, a.jumped_forward().state),
        steady(a.state, a.scrolled(scroll).state),
{
    reveal(Turn::moved);
    reveal(Turn::jumped_back);
    reveal(Turn::jumped_forward);
    reveal(Turn::scrolled);
}

proof fn lemma_rows_shifted(a: Turn, first: int, row: int, operator: Operator, columns: int)
    ensures
        steady(a.state, a.rows_shifted(first, row, operator, columns).state),
    decreases row - first + 1,
{
    reveal(Turn::row_shifted);
    if row >= first {
        lemma_rows_shifted(
            a.row_shifted(row, operator, columns),
            first,
            row - 1,
            operator,
            columns,
        );
    }
}

proof fn lemma_performed(a: Turn, operator: Operator, extent: Extent, amount: usize)
    ensures
        steady(a.state, a.performed(operator, extent, amount).state),
{
    reveal(Turn::performed);
    if operator.shifts() {
        if let Extent::Lines { first, last } = extent {
            let columns = pending::saturated(a.state.indent.shift_width * amount) as int;
            lemma_rows_shifted(a, first, last, operator, columns);
        }
    }
}

proof fn lemma_operated(a: Turn, operator: Operator, extent: Extent, amount: usize)
    ensures
        steady(a.state, a.operated(operator, extent, amount).state),
{
    reveal(Turn::operated);
    let s = if a.state.mode is Visual {
        a.state.selection_marked()
    } else {
        a.state
    };
    let fs = if operator.fills() {
        s.yanked(extent)
    } else {
        s
    };
    lemma_performed(a.to(fs), operator, extent, amount);
}

proof fn lemma_operated_on(
    a: Turn,
    operator: Operator,
    target: Target<Seq<char>>,
    count: Option<usize>,
)
    ensures
        steady(a.state, a.operated_on(operator, target, count).state),
{
    reveal(Turn::operated_on);
    let s = match target {
        Target::Motion(motion) => a.state.find_remembered(motion).search_remembered(motion),
        _ => a.state,
    };
    if let Some(extent) = s.target_extent(operator, target, count) {
        let amount = if s.mode is Visual {
            match count {
                Some(n) => n,
                None => 1,
            }
        } else {
            1
        };
        lemma_operated(a.to(s), operator, extent, amount);
    }
}

proof fn lemma_modes(
    a: Turn,
    scope: ObjectScope,
    object: TextObject,
    repeat: usize,
    at: InsertAt,
    kind: VisualKind,
)
    ensures
        steady(a.state, a.object_selected(scope, object, repeat).state),
        steady(a.state, a.insert_entered(at).state),
        steady(a.state, a.replace_entered().state),
        steady(a.state, a.visual_entered(kind).state),
        steady(a.state, a.normal_entered().state),
{
    reveal(Turn::object_selected);
    reveal(Turn::insert_begun);
    reveal(Turn::insert_entered);
    reveal(Turn::visual_entered);
    reveal(Turn::normal_entered);
}

proof fn lemma_rows_joined(a: Turn, n: int)
    ensures
        steady(a.state, a.rows_joined(n).state),
    decreases n,
{
    reveal(Turn::row_joined);
    let row = text::row_of(a.state.text, a.state.cursor);
    if n > 0 && row + 1 < text::rows(a.state.text) {
        lemma_rows_joined(a.row_joined(row), n - 1);
    }
}

proof fn lemma_char_edits(a: Turn, before: bool, ch: char, repeat: usize)
    ensures
        steady(a.state, a.char_deleted(before, repeat).state),
        steady(a.state, a.char_replaced(ch, repeat).state),
        steady(a.state, a.case_swapped(repeat).state),
{
    reveal(Turn::char_deleted);
    reveal(Turn::char_replaced);
    reveal(Turn::case_swapped);
}

proof fn lemma_put(a: Turn, before: bool, repeat: usize)
    ensures
        steady(a.state, a.put(before, repeat).state),
{
    reveal(Turn::put);
}

proof fn lemma_surround_changed(a: Turn, from: char, to: char)
    ensures
        steady(a.state, a.surround_changed(from, to).state),
{
    reveal(Turn::surround_changed);
    reveal(Turn::delimiters_replaced);
}

proof fn lemma_surrounds(a: Turn, target: char)
    ensures
        steady(a.state, a.surround_deleted(target).state),
        steady(a.state, a.surrounded(target).state),
{
    reveal(Turn::surround_deleted);
    reveal(Turn::surrounded);
    reveal(Turn::delimiters_replaced);
}

proof fn lemma_typed(a: Turn, ch: char)
    ensures
        steady(a.state, a.typed(ch).state),
        steady(a.state, a.newline_typed().state),
        steady(a.state, a.deleted_back_to(a.state.back_one()).state),
        steady(a.state, a.word_deleted_back().state),
{
    reveal(Turn::typed);
    reveal(Turn::newline_typed);
    reveal(Turn::deleted_back_to);
    reveal(Turn::word_deleted_back);
}

proof fn lemma_reported(a: Turn, changes: Seq<Delta>, n: int)
    ensures
        steady(a.state, a.reported(changes, n).state),
    decreases n,
{
    if n > 0 {
        lemma_reported(a, changes, n - 1);
    }
}

proof fn lemma_reverted(a: Turn)
    ensures
        steady(a.state, a.undone().state),
        steady(a.state, a.redone().state),
{
    reveal(Turn::undone);
    reveal(Turn::redone);
    reveal(Turn::reverted);
    assert forall|t: Turn, changes: Seq<Delta>, n: int| steady(
        t.state,
        #[trigger] t.reported(changes, n).state,
    ) by {
        lemma_reported(t, changes, n);
    }
}

/// A command that neither replays nor begins a recording leaves recording alone.
proof fn lemma_acted(a: Turn, command: Command<Seq<char>>, count: Option<usize>)
    requires
        !state::replays(command),
        !(command is RecordMacro),
    ensures
        steady(a.state, a.acted(command, count).state),
{
    reveal(Turn::acted);
    let repeat = match count {
        Some(n) => n,
        None => 1,
    };
    match command {
        Command::Move(motion) => {
            lemma_moves(a, motion, count, Scroll::Center);
        },
        Command::Operate { operator, target } => {
            lemma_operated_on(a, operator, target, count);
        },
        Command::SelectObject { scope, object } => {
            lemma_modes(a, scope, object, repeat, InsertAt::Cursor, VisualKind::Char);
        },
        Command::EnterInsert(at) => {
            lemma_modes(a, ObjectScope::Inner, TextObject::Paragraph, 1, at, VisualKind::Char);
        },
        Command::EnterVisual(kind) => {
            lemma_modes(a, ObjectScope::Inner, TextObject::Paragraph, 1, InsertAt::Cursor, kind);
        },
        Command::EnterReplace | Command::EnterNormal => {
            lemma_modes(
                a,
                ObjectScope::Inner,
                TextObject::Paragraph,
                1,
                InsertAt::Cursor,
                VisualKind::Char,
            );
        },
        Command::DeleteChar { before } => {
            lemma_char_edits(a, before, ' ', repeat);
        },
        Command::ReplaceChar(ch) => {
            lemma_char_edits(a, false, ch, repeat);
        },
        Command::ChangeSurround { from, to } => {
            lemma_surround_changed(a, from, to);
        },
        Command::DeleteSurround(target) => {
            lemma_surrounds(a, target);
        },
        Command::SurroundSelection(delimiter) => {
            lemma_surrounds(a, delimiter);
        },
        Command::JoinRows => {
            lemma_rows_joined(
                a,
                if repeat < 2 {
                    1
                } else {
                    repeat - 1
                },
            );
        },
        Command::Put { before } => {
            lemma_put(a, before, repeat);
        },
        Command::SwapCase => {
            lemma_char_edits(a, false, ' ', repeat);
        },
        Command::Undo | Command::Redo => {
            lemma_reverted(a);
        },
        Command::JumpBack | Command::JumpForward => {
            lemma_moves(a, Motion::Left, None, Scroll::Center);
        },
        Command::Scroll(scroll) => {
            lemma_moves(a, Motion::Left, None, scroll);
        },
        Command::InsertText(ch) => {
            lemma_typed(a, ch);
        },
        Command::InsertNewline | Command::DeleteBack | Command::DeleteWordBack => {
            lemma_typed(a, ' ');
        },
        _ => {},
    }
}

/// Remembering what a command did leaves recording alone.
proof fn lemma_remembered(
    s: EditorState,
    effects: Seq<Effect>,
    was_visual: bool,
    keys: Seq<Key>,
    command: Command<Seq<char>>,
)
    ensures
        steady(s, s.change_marked(effects)),
        steady(s, s.shaped(was_visual, keys)),
        steady(s, s.noted(command, keys)),
{
    reveal(EditorState::change_marked);
    reveal(EditorState::shaped);
    reveal(EditorState::noted);
}

proof fn lemma_handled(s: EditorState, key: Key, d: int)
    requires
        0 <= d <= 64,
        s.replay_depth == d,
        !state::meets(s, key, d, starting()),
        !state::stops_recording(s, key, d),
    ensures
        steady(s.heard(key), state::handled(s, key, d).state),
    decreases 65 - d, 3int, 0int, 0int,
{
    reveal(EditorState::heard);
    let h = s.heard(key);
    let (pending, outcome) = h.pending.fed(key, h.mode, h.keymap);
    let p = EditorState { pending, ..h };
    if let Outcome::Command { command, count, keys } = outcome {
        lemma_ran(p, command, count, d);
        let t = state::ran(p, command, count, d);
        let was = p.mode is Visual;
        lemma_remembered(t.state, t.effects, was, keys, command);
        lemma_remembered(t.state.shaped(was, keys), t.effects, was, keys, command);
    }
}

proof fn lemma_ran(s: EditorState, command: Command<Seq<char>>, count: Option<usize>, d: int)
    requires
        0 <= d <= 64,
        s.replay_depth == d,
        !state::runs_any(
            EditorState { history: s.history.begun(Some(s.cursor as usize)), ..s },
            command,
            count,
            d,
            starting(),
        ),
    ensures
        steady(s, state::ran(s, command, count, d).state),
    decreases 65 - d, 2int, 0int, 0int,
{
    let begun = EditorState { history: s.history.begun(Some(s.cursor as usize)), ..s };
    lemma_dispatched(begun, command, count, d);
    let t = state::dispatched(begun, command, count, d);
    lemma_remembered(t.state, t.effects, false, Seq::empty(), command);
}

proof fn lemma_dispatched(
    s: EditorState,
    command: Command<Seq<char>>,
    count: Option<usize>,
    d: int,
)
    requires
        0 <= d <= 64,
        s.replay_depth == d,
        !state::runs_any(s, command, count, d, starting()),
    ensures
        steady(s, state::dispatched(s, command, count, d).state),
    decreases 65 - d, 1int, 0int, 0int,
{
    assert(!starting()(EditorState { replay_depth: d, ..s }, command));
    if !state::replays(command) {
        lemma_acted(Turn { state: s, effects: Seq::empty() }, command, count);
    } else if let Some(script) = state::script_of(s, command) {
        if d < 64 {
            let times = match count {
                Some(n) => n as int,
                None => 1,
            };
            lemma_replayed(EditorState { replay_depth: d + 1, ..s }, script, times, 0, d + 1);
        }
    }
}

proof fn lemma_replayed(s: EditorState, script: Seq<Key>, times: int, i: int, d: int)
    requires
        1 <= d <= 64,
        s.replay_depth == d,
        !state::replays_any(s, script, times, i, d, starting()),
    ensures
        steady(s, state::replayed(s, script, times, i, d).state),
    decreases
            65 - d,
            4int,
            if times > 0 {
                times
            } else {
                0
            },
            script.len() - i,
{
    if times > 0 {
        if !(0 <= i < script.len()) {
            if script.len() > 0 {
                lemma_replayed(s, script, times - 1, 0, d);
            }
        } else {
            lemma_handled(s, script[i], d);
            reveal(EditorState::heard);
            lemma_replayed(state::handled(s, script[i], d).state, script, times, i + 1, d);
        }
    }
}

/// While a recording is under way it takes every key that is typed, and none that is
/// replayed: `@a` inside a recording is stored as `@a`. The keys must not stop the
/// recording, nor begin another.
pub proof fn a_recording_takes_the_keys_typed(
    s: EditorState,
    keys: Seq<Key>,
    i: int,
    register: char,
    script: Seq<Key>,
)
    requires
        0 <= i <= keys.len(),
        s.replay_depth == 0,
        s.recording == Some((register, script)),
        !state::any_meets(s, keys, i, 0, starting()),
        !repeat::stops_any(s, keys, 1, i),
    ensures
        state::all_handled(s, keys, i, 0).state.recording == Some(
            (register, script + keys.skip(i)),
        ),
        state::all_handled(s, keys, i, 0).state.macros == s.macros,
    decreases keys.len() - i,
{
    if i < keys.len() {
        lemma_handled(s, keys[i], 0);
        reveal(EditorState::heard);
        let next = state::handled(s, keys[i], 0).state;
        a_recording_takes_the_keys_typed(next, keys, i + 1, register, script.push(keys[i]));
        assert(script.push(keys[i]) + keys.skip(i + 1) =~= script + keys.skip(i));
    } else {
        assert(script + keys.skip(i) =~= script);
    }
}

/// `q` stores what was recorded, and playing the register replays it.
pub proof fn a_stopped_recording_can_be_played(s: EditorState, register: char, script: Seq<Key>)
    requires
        s.replay_depth == 0,
        s.mode == Mode::Normal,
        s.pending.idle(),
        s.recording == Some((register, script)),
    ensures
        ({
            let t = state::handled(s, key::plain('q'), 0).state;
            &&& t.recording is None
            &&& state::script_of(t, Command::PlayMacro(register)) == Some(script)
            &&& t == EditorState { recording: None, macros: t.macros, ..s }
        }),
{
}

} // verus!
