//! What `.` promises under the default scheme.
//!
//! What a key does to the mode and to the keys pending can be told from the keys
//! alone, but for commands that ring because they do not find what they act on. So
//! whether the keys of a change can be replayed can be told from the keys, too.

use vstd::prelude::*;

use crate::command::{
    Command, InsertAt, Mode, Motion, ObjectScope, Operator, Scroll, Target, TextObject, VisualKind,
};
use crate::edit::Delta;
use crate::effect::Effect;
use crate::key;
use crate::key::Key;
use crate::keymap;
use crate::keymap::Binding;
use crate::motion::Extent;
use crate::pending;
use crate::pending::{Outcome, PendingState};
use crate::repeat;
use crate::state;
use crate::state::{EditorState, Property, Turn};
use crate::text;

verus! {

// ---------------------------------------------------------------------------
// keys on their own
// ---------------------------------------------------------------------------

/// Whether what `command` does rests on more than the text: on the history, on a
/// recording or on remembered keys.
pub open spec fn worldly(command: Command<Seq<char>>) -> bool {
    command is Undo || command is Redo || command is RecordMacro || state::replays(command)
}

/// The mode after `command` in `mode`, where it finds what it acts on.
pub open spec fn mode_after(mode: Mode, command: Command<Seq<char>>) -> Mode {
    match command {
        Command::EnterInsert(_) => Mode::Insert,
        Command::EnterReplace => Mode::Replace,
        Command::EnterNormal => Mode::Normal,
        Command::EnterVisual(kind) => if mode == Mode::Visual(kind) {
            Mode::Normal
        } else {
            Mode::Visual(kind)
        },
        Command::Operate { operator: Operator::Change, .. } => Mode::Insert,
        Command::Operate { .. } | Command::SurroundSelection(_) => if mode is Visual {
            Mode::Normal
        } else {
            mode
        },
        _ => mode,
    }
}

/// The mode and the keys pending after `key`, where the command it completes, if
/// any, finds what it acts on.
pub open spec fn led(mode: Mode, pending: PendingState, key: Key) -> (Mode, PendingState) {
    let (next, outcome) = pending.fed(key, mode, keymap::vim_state());
    match outcome {
        Outcome::Command { command, .. } => (mode_after(mode, command), next),
        _ => (mode, next),
    }
}

/// Whether `key` neither stops a recording nor completes a worldly command.
pub open spec fn passes(mode: Mode, pending: PendingState, key: Key) -> bool {
    &&& !(mode == Mode::Normal && pending.idle() && key == key::plain('q'))
    &&& match pending.fed(key, mode, keymap::vim_state()).1 {
        Outcome::Command { command, .. } => !worldly(command),
        _ => true,
    }
}

/// Whether no key from the `i`th on stops a recording or completes a worldly
/// command, where each command finds what it acts on.
pub open spec fn sober(mode: Mode, pending: PendingState, keys: Seq<Key>, i: int) -> bool
    decreases keys.len() - i,
{
    0 <= i < keys.len() ==> passes(mode, pending, keys[i]) && sober(
        led(mode, pending, keys[i]).0,
        led(mode, pending, keys[i]).1,
        keys,
        i + 1,
    )
}

/// Whether `key` leaves the mode it leaves where its command, if it completes one,
/// finds what it acts on.
pub open spec fn hits(s: EditorState, key: Key) -> bool {
    match s.pending.fed(key, s.mode, s.keymap).1 {
        Outcome::Command { command, .. } => state::handled(s, key, 0).state.mode == mode_after(
            s.mode,
            command,
        ),
        _ => true,
    }
}

/// Whether every command that the keys from the `i`th on complete, typed one after
/// the other, finds what it acts on.
pub open spec fn finds(s: EditorState, keys: Seq<Key>, i: int) -> bool
    decreases keys.len() - i,
{
    0 <= i < keys.len() ==> hits(s, keys[i]) && finds(
        state::handled(s, keys[i], 0).state,
        keys,
        i + 1,
    )
}

// ---------------------------------------------------------------------------
// what commands leave alone
// ---------------------------------------------------------------------------

/// Whether the keys remembered for replays are the same in both states.
pub open spec fn untold(s: EditorState, t: EditorState) -> bool {
    &&& t.macros == s.macros
    &&& t.last_change == s.last_change
    &&& t.change_keys == s.change_keys
    &&& t.visual_keys == s.visual_keys
}

/// Whether the undo group of an insert session is open just while one is under way.
pub open spec fn attended(s: EditorState) -> bool {
    s.insert_group == !s.mode.commands()
}

/// Whether a command run on `s` can have led to `t`: bindings, pending keys and
/// remembered keys stay, and a selection under way has two ends.
spec fn grounded(s: EditorState, t: EditorState) -> bool {
    &&& t.keymap == s.keymap
    &&& t.replay_depth == s.replay_depth
    &&& attended(s) && s.mode.commands() ==> attended(t)
    &&& t.pending == s.pending
    &&& untold(s, t)
    &&& (s.mode is Visual ==> s.anchor is Some) ==> (t.mode is Visual ==> t.anchor is Some)
}

/// Whether bindings, pending keys, mode and selection are left alone.
spec fn level(s: EditorState, t: EditorState) -> bool {
    &&& t.keymap == s.keymap
    &&& t.replay_depth == s.replay_depth
    &&& t.insert_group == s.insert_group
    &&& t.pending == s.pending
    &&& t.mode == s.mode
    &&& s.anchor is Some ==> t.anchor is Some
}

/// Whether remembered keys are left alone, too.
spec fn unmoved(s: EditorState, t: EditorState) -> bool {
    level(s, t) && untold(s, t)
}

proof fn lemma_moves(a: Turn, motion: Motion<Seq<char>>, count: Option<usize>, scroll: Scroll)
    ensures
        unmoved(a.state, a.moved(motion, count).state),
        unmoved(a.state, a.jumped_back().state),
        unmoved(a.state, a.jumped_forward().state),
        unmoved(a.state, a.scrolled(scroll).state),
{
    reveal(Turn::moved);
    reveal(Turn::jumped_back);
    reveal(Turn::jumped_forward);
    reveal(Turn::scrolled);
}

proof fn lemma_rows_shifted(a: Turn, first: int, row: int, operator: Operator, columns: int)
    ensures
        unmoved(a.state, a.rows_shifted(first, row, operator, columns).state),
    decreases row - first + 1,
{
    reveal(Turn::row_shifted);
    if row >= first {
        lemma_rows_shifted(
            a.row_shifted(row, operator, columns),
            first,
            row - 1,
            operator,
            columns,
        );
    }
}

proof fn lemma_performed(a: Turn, operator: Operator, extent: Extent, amount: usize)
    ensures
        ({
            let t = a.performed(operator, extent, amount).state;
            if operator == Operator::Change {
                t.keymap == a.state.keymap && t.pending == a.state.pending && untold(
                    a.state,
                    t,
                ) && t.mode == Mode::Insert && t.insert_group && t.replay_depth
                    == a.state.replay_depth
            } else {
                unmoved(a.state, t)
            }
        }),
{
    reveal(Turn::performed);
    if operator.shifts() {
        if let Extent::Lines { first, last } = extent {
            let columns = pending::saturated(a.state.indent.shift_width * amount) as int;
            lemma_rows_shifted(a, first, last, operator, columns);
        }
    }
}

proof fn lemma_operated(a: Turn, operator: Operator, extent: Extent, amount: usize)
    ensures
        ({
            let t = a.operated(operator, extent, amount).state;
            &&& grounded(a.state, t)
            &&& t.mode == if operator == Operator::Change {
                Mode::Insert
            } else if a.state.mode is Visual {
                Mode::Normal
            } else {
                a.state.mode
            }
        }),
{
    reveal(Turn::operated);
    let s = if a.state.mode is Visual {
        a.state.selection_marked()
    } else {
        a.state
    };
    let fs = if operator.fills() {
        s.yanked(extent)
    } else {
        s
    };
    lemma_performed(a.to(fs), operator, extent, amount);
}

proof fn lemma_operated_on(
    a: Turn,
    operator: Operator,
    target: Target<Seq<char>>,
    count: Option<usize>,
)
    ensures
        ({
            let t = a.operated_on(operator, target, count).state;
            &&& grounded(a.state, t)
            &&& steadfast(a.state.mode, target) && (a.state.mode is Visual ==> a.state.anchor
                is Some) ==> t.mode == mode_after(
                a.state.mode,
                Command::Operate { operator, target },
            )
            &&& t.mode == a.state.mode || t.mode == mode_after(
                a.state.mode,
                Command::Operate { operator, target },
            )
        }),
{
    reveal(Turn::operated_on);
    let s = match target {
        Target::Motion(motion) => a.state.find_remembered(motion).search_remembered(motion),
        _ => a.state,
    };
    if let Some(extent) = s.target_extent(operator, target, count) {
        let amount = if s.mode is Visual {
            match count {
                Some(n) => n,
                None => 1,
            }
        } else {
            1
        };
        lemma_operated(a.to(s), operator, extent, amount);
    } else if steadfast(a.state.mode, target) && (a.state.mode is Visual ==> a.state.anchor is Some) {
        reveal(crate::motion::aimed);
        reveal(crate::object::object_extent);
        assert(false);
    }
}

/// Whether an operator always finds `target`: rows, paragraphs, the selection and
/// the motions that always lead somewhere.
pub open spec fn steadfast(mode: Mode, target: Target<Seq<char>>) -> bool {
    match target {
        Target::CurrentRow => true,
        Target::Selection => mode is Visual,
        Target::Object { object, .. } => object is Paragraph,
        Target::Motion(motion) => match motion {
            Motion::Left
            | Motion::Right
            | Motion::Down
            | Motion::Up
            | Motion::FirstColumn
            | Motion::FirstNonBlank
            | Motion::LastColumn
            | Motion::WordForward { .. }
            | Motion::WordBackward { .. }
            | Motion::WordEnd { .. }
            | Motion::GotoRow
            | Motion::GotoFirstRow => true,
            _ => false,
        },
    }
}

proof fn lemma_modes(
    a: Turn,
    scope: ObjectScope,
    object: TextObject,
    repeat: usize,
    at: InsertAt,
    kind: VisualKind,
)
    ensures
        unmoved(a.state, a.object_selected(scope, object, repeat).state),
        grounded(a.state, a.insert_entered(at).state),
        a.insert_entered(at).state.mode == Mode::Insert,
        grounded(a.state, a.replace_entered().state),
        a.replace_entered().state.mode == Mode::Replace,
        grounded(a.state, a.visual_entered(kind).state),
        a.visual_entered(kind).state.mode == mode_after(
            a.state.mode,
            Command::EnterVisual(kind),
        ),
        grounded(a.state, a.normal_entered().state),
        a.normal_entered().state.mode == Mode::Normal,
        !a.normal_entered().state.insert_group,
{
    reveal(Turn::object_selected);
    reveal(Turn::insert_begun);
    reveal(Turn::insert_entered);
    reveal(Turn::visual_entered);
    reveal(Turn::normal_entered);
}

proof fn lemma_rows_joined(a: Turn, n: int)
    ensures
        unmoved(a.state, a.rows_joined(n).state),
    decreases n,
{
    reveal(Turn::row_joined);
    let row = text::row_of(a.state.text, a.state.cursor);
    if n > 0 && row + 1 < text::rows(a.state.text) {
        lemma_rows_joined(a.row_joined(row), n - 1);
    }
}

proof fn lemma_char_edits(a: Turn, before: bool, ch: char, repeat: usize)
    ensures
        unmoved(a.state, a.char_deleted(before, repeat).state),
        unmoved(a.state, a.char_replaced(ch, repeat).state),
        unmoved(a.state, a.case_swapped(repeat).state),
        unmoved(a.state, a.put(before, repeat).state),
{
    reveal(Turn::char_deleted);
    reveal(Turn::char_replaced);
    reveal(Turn::case_swapped);
    reveal(Turn::put);
}

proof fn lemma_surrounds(a: Turn, from: char, to: char)
    ensures
        unmoved(a.state, a.surround_changed(from, to).state),
        unmoved(a.state, a.surround_deleted(to).state),
        grounded(a.state, a.surrounded(to).state),
{
    reveal(Turn::surround_changed);
    reveal(Turn::surround_deleted);
    reveal(Turn::surrounded);
    reveal(Turn::delimiters_replaced);
}

proof fn lemma_typed(a: Turn, ch: char)
    ensures
        unmoved(a.state, a.typed(ch).state),
        unmoved(a.state, a.newline_typed().state),
        unmoved(a.state, a.deleted_back_to(a.state.back_one()).state),
        unmoved(a.state, a.word_deleted_back().state),
{
    reveal(Turn::typed);
    reveal(Turn::newline_typed);
    reveal(Turn::deleted_back_to);
    reveal(Turn::word_deleted_back);
}

/// Whether `command` always leaves the mode that [`mode_after`] says.
pub open spec fn certain(mode: Mode, command: Command<Seq<char>>) -> bool {
    match command {
        Command::Operate { operator, target } => steadfast(mode, target) || !(mode is Visual
            || operator == Operator::Change),
        Command::SurroundSelection(_) => !(mode is Visual),
        _ => true,
    }
}

/// A command leaves bindings and pending keys alone, and the mode as
/// [`mode_after`] says where it is certain to find what it acts on.
proof fn lemma_acted(a: Turn, command: Command<Seq<char>>, count: Option<usize>)
    requires
        !worldly(command),
    ensures
        grounded(a.state, a.acted(command, count).state),
        attended(a.state) && keymap::inserting(Binding::Command(command)) ==> attended(
            a.acted(command, count).state,
        ),
        certain(a.state.mode, command) && (a.state.mode is Visual ==> a.state.anchor is Some)
            ==> a.acted(command, count).state.mode == mode_after(a.state.mode, command),
        a.acted(command, count).state.mode == a.state.mode || a.acted(
            command,
            count,
        ).state.mode == mode_after(a.state.mode, command),
{
    reveal(Turn::acted);
    let repeat = match count {
        Some(n) => n,
        None => 1,
    };
    match command {
        Command::Move(motion) => {
            lemma_moves(a, motion, count, Scroll::Center);
        },
        Command::Operate { operator, target } => {
            lemma_operated_on(a, operator, target, count);
            if !(a.state.mode is Visual) {
                lemma_missed(a, operator, target, count);
            }
        },
        Command::SelectObject { scope, object } => {
            lemma_modes(a, scope, object, repeat, InsertAt::Cursor, VisualKind::Char);
        },
        Command::EnterInsert(at) => {
            lemma_modes(a, ObjectScope::Inner, TextObject::Paragraph, 1, at, VisualKind::Char);
        },
        Command::EnterVisual(kind) => {
            lemma_modes(a, ObjectScope::Inner, TextObject::Paragraph, 1, InsertAt::Cursor, kind);
        },
        Command::EnterReplace | Command::EnterNormal => {
            lemma_modes(
                a,
                ObjectScope::Inner,
                TextObject::Paragraph,
                1,
                InsertAt::Cursor,
                VisualKind::Char,
            );
        },
        Command::DeleteChar { before } => {
            lemma_char_edits(a, before, ' ', repeat);
        },
        Command::ReplaceChar(ch) => {
            lemma_char_edits(a, false, ch, repeat);
        },
        Command::ChangeSurround { from, to } => {
            lemma_surrounds(a, from, to);
        },
        Command::DeleteSurround(target) => {
            lemma_surrounds(a, target, target);
        },
        Command::SurroundSelection(delimiter) => {
            lemma_surrounds(a, delimiter, delimiter);
            reveal(Turn::surrounded);
        },
        Command::JoinRows => {
            lemma_rows_joined(
                a,
                if repeat < 2 {
                    1
                } else {
                    repeat - 1
                },
            );
        },
        Command::Put { before } => {
            lemma_char_edits(a, before, ' ', repeat);
        },
        Command::SwapCase => {
            lemma_char_edits(a, false, ' ', repeat);
        },
        Command::JumpBack | Command::JumpForward => {
            lemma_moves(a, Motion::Left, None, Scroll::Center);
        },
        Command::Scroll(scroll) => {
            lemma_moves(a, Motion::Left, None, scroll);
        },
        Command::InsertText(ch) => {
            lemma_typed(a, ch);
        },
        Command::InsertNewline | Command::DeleteBack | Command::DeleteWordBack => {
            lemma_typed(a, ' ');
        },
        _ => {},
    }
}

proof fn lemma_reported(a: Turn, changes: Seq<Delta>, n: int)
    ensures
        untold(a.state, a.reported(changes, n).state),
        a.reported(changes, n).state.keymap == a.state.keymap,
    decreases n,
{
    if n > 0 {
        lemma_reported(a, changes, n - 1);
    }
}

/// A command that replays nothing leaves the bindings and the keys remembered for
/// replays alone.
pub proof fn a_command_keeps_what_is_remembered(
    a: Turn,
    command: Command<Seq<char>>,
    count: Option<usize>,
)
    requires
        !state::replays(command),
    ensures
        untold(a.state, a.acted(command, count).state),
        a.acted(command, count).state.keymap == a.state.keymap,
{
    if worldly(command) {
        reveal(Turn::acted);
        reveal(Turn::undone);
        reveal(Turn::redone);
        reveal(Turn::reverted);
        assert forall|t: Turn, changes: Seq<Delta>, n: int|
            untold(t.state, (#[trigger] t.reported(changes, n)).state) && t.reported(
                changes,
                n,
            ).state.keymap == t.state.keymap by {
            lemma_reported(t, changes, n);
        }
    } else {
        lemma_acted(a, command, count);
    }
}

/// An operator other than a change leaves the mode alone outside visual mode, found
/// or not.
proof fn lemma_missed(
    a: Turn,
    operator: Operator,
    target: Target<Seq<char>>,
    count: Option<usize>,
)
    requires
        !(a.state.mode is Visual),
    ensures
        operator != Operator::Change ==> a.operated_on(operator, target, count).state.mode
            == a.state.mode,
{
    reveal(Turn::operated_on);
    let s = match target {
        Target::Motion(motion) => a.state.find_remembered(motion).search_remembered(motion),
        _ => a.state,
    };
    if let Some(extent) = s.target_extent(operator, target, count) {
        lemma_operated(a.to(s), operator, extent, 1);
    }
}

/// Remembering what a command did leaves mode, pending keys, bindings and selection
/// alone.
proof fn lemma_remembered(
    s: EditorState,
    effects: Seq<Effect>,
    was_visual: bool,
    keys: Seq<Key>,
    command: Command<Seq<char>>,
    key: Key,
)
    ensures
        level(s, s.heard(key)),
        unmoved(s, s.change_marked(effects)),
        level(s, s.shaped(was_visual, keys)),
        level(s, s.noted(command, keys)),
{
    reveal(EditorState::heard);
    reveal(EditorState::change_marked);
    reveal(EditorState::shaped);
    reveal(EditorState::noted);
}

/// What `.` remembers of a command rests on the mode it leaves and on what was
/// remembered before.
proof fn lemma_noted(
    s: EditorState,
    t: EditorState,
    was_visual: bool,
    command: Command<Seq<char>>,
    keys: Seq<Key>,
)
    requires
        untold(s, t),
        s.mode == t.mode,
    ensures
        untold(
            s.shaped(was_visual, keys).noted(command, keys),
            t.shaped(was_visual, keys).noted(command, keys),
        ),
{
    reveal(EditorState::shaped);
    reveal(EditorState::noted);
}

/// What one key does to the mode, to the keys pending and to those remembered, unless
/// its command is worldly.
pub proof fn lemma_step(s: EditorState, key: Key, depth: int)
    requires
        !state::stops_recording(s, key, depth),
        s.pending.fed(key, s.mode, s.keymap).1 matches Outcome::Command { command, .. }
            ==> !worldly(command),
    ensures
        ({
            let (pending, outcome) = s.pending.fed(key, s.mode, s.keymap);
            let t = state::handled(s, key, depth).state;
            &&& t.keymap == s.keymap
            &&& t.pending == pending
            &&& t.replay_depth == s.replay_depth
            &&& (s.mode is Visual ==> s.anchor is Some) ==> (t.mode is Visual ==> t.anchor is Some)
            &&& match outcome {
                Outcome::Command { command, .. } => {
                    &&& certain(s.mode, command) && (s.mode is Visual ==> s.anchor is Some)
                        ==> t.mode == mode_after(s.mode, command)
                    &&& t.mode == s.mode || t.mode == mode_after(s.mode, command)
                    &&& attended(s) && (s.mode.commands() || keymap::inserting(
                        Binding::Command(command),
                    )) ==> attended(t)
                    &&& untold(
                        (EditorState { mode: t.mode, ..s.heard(key) }).shaped(
                            s.mode is Visual,
                            s.pending.keys.push(key),
                        ).noted(command, s.pending.keys.push(key)),
                        t,
                    )
                },
                _ => t.mode == s.mode && t.insert_group == s.insert_group && untold(
                    s.heard(key),
                    t,
                ),
            }
        }),
{
    pending::the_parser_always_resets(s.pending, key, s.mode, s.keymap);
    lemma_remembered(s, Seq::empty(), false, Seq::empty(), Command::Undo, key);
    let h = s.heard(key);
    assert(h.anchor == s.anchor) by {
        reveal(EditorState::heard);
    }
    let (pending, outcome) = h.pending.fed(key, h.mode, h.keymap);
    let p = EditorState { pending, ..h };
    if let Outcome::Command { command, count, keys } = outcome {
        let begun = EditorState { history: p.history.begun(Some(p.cursor as usize)), ..p };
        let start = Turn { state: begun, effects: Seq::empty() };
        lemma_acted(start, command, count);
        let t = state::dispatched(begun, command, count, depth);
        assert(t == start.acted(command, count));
        let was = p.mode is Visual;
        lemma_remembered(t.state, t.effects, was, keys, command, key);
        let r = state::ran(p, command, count, depth).state;
        lemma_remembered(r, t.effects, was, keys, command, key);
        lemma_remembered(r.shaped(was, keys), t.effects, was, keys, command, key);
        lemma_noted(EditorState { mode: r.mode, ..h }, r, was, command, keys);
    }
}

/// Commands whose outcome rests on where they run: those that are situated, and replays
/// within a replay.
pub open spec fn nested() -> Property {
    |s: EditorState, command: Command<Seq<char>>|
        {
            ||| repeat::situated()(s, command)
            ||| state::replays(command) && s.replay_depth > 0
        }
}

/// What one key does to kindred states is the same, in a replay and typed, unless its
/// command is nested.
proof fn lemma_kindred(s: EditorState, t: EditorState, key: Key)
    requires
        repeat::kindred(s, t),
        !state::stops_recording(t, key, 0),
        !state::meets(s, key, 1, nested()),
    ensures
        repeat::kindred(state::handled(s, key, 1).state, state::handled(t, key, 0).state),
        state::handled(s, key, 1).effects == state::handled(t, key, 0).effects,
{
    reveal(EditorState::heard);
    let hs = s.heard(key);
    let ht = t.heard(key);
    let (pending, outcome) = hs.pending.fed(key, hs.mode, hs.keymap);
    let ps = EditorState { pending, ..hs };
    let pt = EditorState { pending, ..ht };
    if let Outcome::Command { command, count, keys } = outcome {
        let begun = EditorState { history: ps.history.begun(Some(ps.cursor as usize)), ..ps };
        assert(!nested()(EditorState { replay_depth: 1, ..begun }, command));
        assert(!repeat::situated()(EditorState { replay_depth: 1, ..begun }, command));
        repeat::a_command_runs_the_same_deeper(ps, pt, command, count, 1, 0);
        reveal(EditorState::shaped);
        reveal(EditorState::noted);
    }
}

/// Keys do the same replayed as typed, to kindred states, unless a command among them
/// is nested or stops a recording.
proof fn lemma_replayed(s: EditorState, t: EditorState, keys: Seq<Key>, i: int)
    requires
        repeat::kindred(s, t),
        0 <= i <= keys.len(),
        !state::replays_any(s, keys, 1, i, 1, nested()),
        !repeat::stops_any(t, keys, 1, i),
    ensures
        repeat::kindred(
            state::replayed(s, keys, 1, i, 1).state,
            state::replayed(t, keys, 1, i, 0).state,
        ),
        state::replayed(s, keys, 1, i, 1).effects == state::replayed(t, keys, 1, i, 0).effects,
    decreases keys.len() - i,
{
    if i < keys.len() {
        lemma_kindred(s, t, keys[i]);
        let u = state::handled(s, keys[i], 1).state;
        let v = state::handled(t, keys[i], 0).state;
        lemma_replayed(u, v, keys, i + 1);
    } else if keys.len() > 0 {
        assert(state::replayed(s, keys, 0, 0, 1).state == s);
        assert(state::replayed(t, keys, 0, 0, 0).state == t);
    }
}

/// Sober keys run no nested command in a replay, and stop no recording when typed, as
/// long as every command finds what it acts on.
proof fn lemma_sober(s: EditorState, t: EditorState, keys: Seq<Key>, i: int)
    requires
        repeat::kindred(s, t),
        s.keymap == keymap::vim_state(),
        0 <= i <= keys.len(),
        sober(s.mode, s.pending, keys, i),
        finds(t, keys, i),
    ensures
        !state::replays_any(s, keys, 1, i, 1, nested()),
        !repeat::stops_any(t, keys, 1, i),
    decreases keys.len() - i,
{
    if i < keys.len() {
        let key = keys[i];
        assert(passes(s.mode, s.pending, key));
        a_passing_key_undoes_nothing(s, key, 1);
        lemma_kindred(s, t, key);
        lemma_step(s, key, 1);
        let u = state::handled(s, key, 1).state;
        let v = state::handled(t, key, 0).state;
        assert(hits(t, key));
        lemma_sober(u, v, keys, i + 1);
    } else if keys.len() > 0 {
        assert(!state::replays_any(s, keys, 0, 0, 1, nested()));
        assert(!repeat::stops_any(t, keys, 0, 0));
    }
}

/// A key that passes undoes nothing and replays nothing.
pub proof fn a_passing_key_undoes_nothing(s: EditorState, key: Key, d: int)
    requires
        s.keymap == keymap::vim_state(),
        passes(s.mode, s.pending, key),
        1 <= d <= 64,
    ensures
        !state::meets(s, key, d, nested()),
        !state::meets(s, key, d, state::reverting_midway()),
{
    reveal(EditorState::heard);
    let h = s.heard(key);
    let (next, outcome) = h.pending.fed(key, h.mode, h.keymap);
    if let Outcome::Command { command, .. } = outcome {
        let q = EditorState { pending: next, ..h };
        let begun = EditorState { history: q.history.begun(Some(q.cursor as usize)), ..q };
        assert(!nested()(EditorState { replay_depth: d, ..begun }, command));
        assert(!state::reverting_midway()(EditorState { replay_depth: d, ..begun }, command));
        assert(state::script_of(begun, command) is None);
    }
}

/// Whether `.` does what typing the keys of the last change again would do: to the
/// text, the cursor, the mode, the selection and the register, and in what it reports.
pub open spec fn repeats(s: EditorState) -> bool {
    let replay = state::handled(s, key::plain('.'), 0);
    let typed = state::all_handled(s, s.last_change, 0, 0);
    &&& replay.effects == typed.effects
    &&& replay.state.text == typed.state.text
    &&& replay.state.cursor == typed.state.cursor
    &&& replay.state.mode == typed.state.mode
    &&& replay.state.selection() == typed.state.selection()
    &&& replay.state.register == typed.state.register
}

/// Whether nothing comes between replaying the last change and typing it: replaying it
/// undoes nothing while it has changes open and replays nothing too deep, and typing it
/// stops no recording. While the keys of a change are still being taken down it replays
/// nothing in turn.
pub open spec fn undisturbed(s: EditorState) -> bool {
    &&& !repeat::stops_any(s, s.last_change, 1, 0)
    &&& if s.change_keys is None {
        !state::meets(s, key::plain('.'), 0, repeat::situated())
    } else {
        !state::meets(s, key::plain('.'), 0, nested())
    }
}

/// Whether the editor is in normal mode under the default scheme, with nothing pending
/// and no replay under way.
pub open spec fn at_rest(s: EditorState) -> bool {
    &&& s.wf()
    &&& s.keymap == keymap::vim_state()
    &&& s.mode == Mode::Normal
    &&& s.pending == PendingState::fresh()
    &&& s.replay_depth == 0
    &&& !s.insert_group
}

/// The state in which `.` begins to replay.
spec fn replaying(s: EditorState) -> EditorState {
    let h = s.heard(key::plain('.'));
    EditorState { history: h.history.begun(Some(h.cursor as usize)), replay_depth: 1, ..h }
}

/// How `.` begins: it runs the keys of the last change once, one replay deep.
proof fn lemma_dot(s: EditorState)
    requires
        at_rest(s),
        s.last_change.len() > 0,
    ensures
        s.pending.fed(key::plain('.'), s.mode, s.keymap) == (
            PendingState::fresh(),
            Outcome::Command {
                command: Command::<Seq<char>>::Repeat,
                count: None,
                keys: seq![key::plain('.')],
            },
        ),
        repeat::kindred(replaying(s), s),
        replaying(s).last_change == s.last_change,
        state::meets(s, key::plain('.'), 0, nested()) == state::replays_any(
            replaying(s),
            s.last_change,
            1,
            0,
            1,
            nested(),
        ),
{
    let dot = key::plain('.');
    keymap::the_default_scheme_binds();
    pending::a_bound_key_runs_its_command(dot, s.mode, s.keymap, Command::Repeat);
    reveal(EditorState::heard);
    let h = s.heard(dot);
    let q = EditorState { pending: PendingState::fresh(), ..h };
    let begun = EditorState { history: q.history.begun(Some(q.cursor as usize)), ..q };
    assert(EditorState { replay_depth: 1, ..begun } == replaying(s));
    assert(!nested()(EditorState { replay_depth: 0, ..begun }, Command::<Seq<char>>::Repeat));
}

/// Under the default scheme `.` repeats the last change.
pub proof fn the_dot_key_repeats_the_last_change(s: EditorState)
    requires
        at_rest(s),
        s.last_change.len() > 0,
        undisturbed(s),
    ensures
        repeats(s),
{
    let dot = key::plain('.');
    let keys = s.last_change;
    lemma_dot(s);
    if s.change_keys is None {
        repeat::dot_repeats_the_last_change(s, dot);
    } else {
        lemma_replayed(replaying(s), s, keys, 0);
        repeat::typed_once(s, keys, 0);
        reveal(EditorState::heard);
        let q = s.heard(dot);
        assert(q == (EditorState { pending: PendingState::fresh(), ..q }));
        let begun = EditorState { history: q.history.begun(Some(q.cursor as usize)), ..q };
        let done = state::dispatched(begun, Command::Repeat, None, 0);
        let typed = state::all_handled(s, keys, 0, 0);
        assert(repeat::kin(done.state, typed.state) && done.effects == typed.effects);
        let r = state::ran(q, Command::Repeat, None, 0);
        assert(r.effects == typed.effects && r.state.text == typed.state.text && r.state.cursor
            == typed.state.cursor && r.state.mode == typed.state.mode && r.state.anchor
            == typed.state.anchor && r.state.viewport == typed.state.viewport && r.state.register
            == typed.state.register) by {
            reveal(EditorState::change_marked);
        }
        reveal(EditorState::shaped);
        reveal(EditorState::noted);
    }
}

/// Sober keys that find what they act on are undisturbed.
pub proof fn sober_changes_are_undisturbed(s: EditorState)
    requires
        at_rest(s),
        s.last_change.len() > 0,
        sober(Mode::Normal, PendingState::fresh(), s.last_change, 0),
        finds(s, s.last_change, 0),
    ensures
        undisturbed(s),
{
    lemma_dot(s);
    assert(replaying(s).mode == s.mode && replaying(s).pending == s.pending && replaying(s).keymap
        == s.keymap) by {
        reveal(EditorState::heard);
    }
    lemma_sober(replaying(s), s, s.last_change, 0);
    lemma_situated_is_nested(s, key::plain('.'), 0);
}

/// A key that runs no nested command runs no situated one.
proof fn lemma_situated_is_nested(s: EditorState, key: Key, d: int)
    requires
        0 <= d <= 64,
        !state::meets(s, key, d, nested()),
    ensures
        !state::meets(s, key, d, repeat::situated()),
    decreases 65 - d, 3int, 0int, 0int,
{
    if !state::stops_recording(s, key, d) {
        let h = s.heard(key);
        let (pending, outcome) = h.pending.fed(key, h.mode, h.keymap);
        let q = EditorState { pending, ..h };
        if let Outcome::Command { command, count, .. } = outcome {
            let begun = EditorState { history: q.history.begun(Some(q.cursor as usize)), ..q };
            assert(!nested()(EditorState { replay_depth: d, ..begun }, command));
            if let Some(script) = state::script_of(begun, command) {
                if d < 64 {
                    let times = match count {
                        Some(n) => n as int,
                        None => 1,
                    };
                    lemma_situated_is_nested_in(
                        EditorState { replay_depth: d + 1, ..begun },
                        script,
                        times,
                        0,
                        d + 1,
                    );
                }
            }
        }
    }
}

proof fn lemma_situated_is_nested_in(
    s: EditorState,
    script: Seq<Key>,
    times: int,
    i: int,
    d: int,
)
    requires
        1 <= d <= 64,
        !state::replays_any(s, script, times, i, d, nested()),
    ensures
        !state::replays_any(s, script, times, i, d, repeat::situated()),
    decreases
            65 - d,
            4int,
            if times > 0 {
                times
            } else {
                0
            },
            script.len() - i,
{
    if times > 0 {
        if !(0 <= i < script.len()) {
            if script.len() > 0 {
                lemma_situated_is_nested_in(s, script, times - 1, 0, d);
            }
        } else {
            lemma_situated_is_nested(s, script[i], d);
            lemma_situated_is_nested_in(
                state::handled(s, script[i], d).state,
                script,
                times,
                i + 1,
                d,
            );
        }
    }
}

// ---------------------------------------------------------------------------
// changes that always find what they act on
// ---------------------------------------------------------------------------

/// Whether every command that the keys from the `i`th on complete is certain to find
/// what it acts on.
pub open spec fn assured(mode: Mode, pending: PendingState, keys: Seq<Key>, i: int) -> bool
    decreases keys.len() - i,
{
    0 <= i < keys.len() ==> {
        &&& pending.fed(keys[i], mode, keymap::vim_state()).1 matches Outcome::Command {
            command,
            ..
        } ==> certain(mode, command)
        &&& assured(
            led(mode, pending, keys[i]).0,
            led(mode, pending, keys[i]).1,
            keys,
            i + 1,
        )
    }
}

/// Sober keys that are assured find what they act on, whatever the text.
pub proof fn assured_keys_find(s: EditorState, keys: Seq<Key>, i: int)
    requires
        s.keymap == keymap::vim_state(),
        s.mode is Visual ==> s.anchor is Some,
        0 <= i <= keys.len(),
        sober(s.mode, s.pending, keys, i),
        assured(s.mode, s.pending, keys, i),
    ensures
        finds(s, keys, i),
    decreases keys.len() - i,
{
    if i < keys.len() {
        assert(passes(s.mode, s.pending, keys[i]));
        lemma_step(s, keys[i], 0);
        assured_keys_find(state::handled(s, keys[i], 0).state, keys, i + 1);
    }
}

} // verus!
