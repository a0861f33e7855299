//! What the editor promises of undo and redo, of jumps, and of what it reports.

use vstd::prelude::*;

use crate::command::{Command, Mode};
use crate::document::DocumentState;
use crate::edit;
use crate::edit::Delta;
use crate::effect::Effect;
use crate::grapheme;
use crate::history;
use crate::history::HistoryState;
use crate::key;
use crate::key::{Key, KeyCode, Mods};
use crate::keymap;
use crate::keymap::{Binding, Layer};
use crate::pending;
use crate::pending::PendingState;
use crate::state;
use crate::state::{EditorState, Turn};
use crate::text;
use crate::undo;

verus! {

/// Reporting changes leaves text and history alone.
proof fn lemma_reported_keeps(t: Turn, changes: Seq<Delta>, n: int)
    ensures
        t.reported(changes, n).state.text == t.state.text,
        t.reported(changes, n).state.history == t.state.history,
        t.reported(changes, n).state.mode == t.state.mode,
        t.reported(changes, n).state.pending == t.state.pending,
        t.reported(changes, n).state.keymap == t.state.keymap,
    decreases n,
{
    if n > 0 {
        lemma_reported_keeps(t, changes, n - 1);
    }
}

/// Remembering a change leaves text and history alone.
proof fn lemma_change_marked_keeps(s: EditorState, effects: Seq<Effect>)
    ensures
        s.change_marked(effects).text == s.text,
        s.change_marked(effects).history == s.history,
        s.change_marked(effects).mode == s.mode,
        s.change_marked(effects).pending == s.pending,
        s.change_marked(effects).keymap == s.keymap,
{
    reveal(EditorState::change_marked);
}

/// With no group open, the undo command takes the most recent step back.
pub proof fn an_undo_command_steps_back(s: EditorState, count: Option<usize>)
    requires
        s.history.wf(),
        s.history.depth == 0,
        s.in_step(),
    ensures
        ({
            let t = state::ran(s, Command::Undo, count, 0).state;
            &&& t.text == history::run(s.text, s.history.undo_step().changes)
            &&& t.history == (HistoryState { open_from: None, ..s.history.undone() })
            &&& t.history.wf()
            &&& t.in_step()
            &&& t.origin() == s.origin()
        }),
{
    undo::undoing_keeps_step(s.history, s.text);
    let at = Some(s.cursor as usize);
    let begun = EditorState { history: s.history.begun(at), ..s };
    let start = Turn { state: begun, effects: Seq::empty() };
    reveal(Turn::acted);
    reveal(Turn::undone);
    reveal(Turn::reverted);
    let doc = DocumentState { text: begun.text, history: begun.history };
    assert(begun.history.undo_step() == s.history.undo_step());
    undo::lemma_runs_land(doc.text, doc.history.undo_step().changes);
    assert(doc.can_undo());
    let after = doc.undone();
    let mid = start.to(EditorState { text: after.text, history: after.history, ..begun });
    let changes = begun.history.undo_step().changes;
    lemma_reported_keeps(mid, changes, changes.len() as int);
    let t = start.undone();
    assert(state::dispatched(begun, Command::Undo, count, 0) == t);
    assert(t.state.text == after.text);
    assert(t.state.history == after.history);
    lemma_change_marked_keeps(t.state, t.effects);
    let h = state::ran(s, Command::Undo, count, 0).state.history;
    assert(s.history.undone().open =~= Seq::<Delta>::empty());
    assert(h == (HistoryState { open_from: None, ..s.history.undone() }));
    reveal(undo::in_step);
    reveal(undo::settled);
    reveal(undo::origin);
}

/// With no group open, the redo command takes the step undone last again.
pub proof fn a_redo_command_steps_forward(s: EditorState, count: Option<usize>)
    requires
        s.history.wf(),
        s.history.depth == 0,
        s.in_step(),
    ensures
        ({
            let t = state::ran(s, Command::Redo, count, 0).state;
            &&& t.text == history::run(s.text, s.history.redo_step().changes)
            &&& t.history == (HistoryState { open_from: None, ..s.history.redone() })
            &&& t.history.wf()
            &&& t.in_step()
            &&& t.origin() == s.origin()
        }),
{
    undo::redoing_keeps_step(s.history, s.text);
    let at = Some(s.cursor as usize);
    let begun = EditorState { history: s.history.begun(at), ..s };
    let start = Turn { state: begun, effects: Seq::empty() };
    reveal(Turn::acted);
    reveal(Turn::redone);
    reveal(Turn::reverted);
    let doc = DocumentState { text: begun.text, history: begun.history };
    assert(begun.history.redo_step() == s.history.redo_step());
    undo::lemma_runs_land(doc.text, doc.history.redo_step().changes);
    assert(doc.can_redo());
    let after = doc.redone();
    let mid = start.to(EditorState { text: after.text, history: after.history, ..begun });
    let changes = begun.history.redo_step().changes;
    lemma_reported_keeps(mid, changes, changes.len() as int);
    let t = start.redone();
    assert(state::dispatched(begun, Command::Redo, count, 0) == t);
    assert(t.state.text == after.text);
    assert(t.state.history == after.history);
    lemma_change_marked_keeps(t.state, t.effects);
    let h = state::ran(s, Command::Redo, count, 0).state.history;
    assert(s.history.redone().open =~= Seq::<Delta>::empty());
    assert(h == (HistoryState { open_from: None, ..s.history.redone() }));
    reveal(undo::in_step);
    reveal(undo::settled);
    reveal(undo::origin);
}

/// The editor after `n` undo commands.
pub open spec fn after_undos(s: EditorState, n: nat) -> EditorState
    decreases n,
{
    if n == 0 {
        s
    } else {
        after_undos(state::ran(s, Command::Undo, None, 0).state, (n - 1) as nat)
    }
}

/// The editor after `n` redo commands.
pub open spec fn after_redos(s: EditorState, n: nat) -> EditorState
    decreases n,
{
    if n == 0 {
        s
    } else {
        after_redos(state::ran(s, Command::Redo, None, 0).state, (n - 1) as nat)
    }
}

/// Undoing as often as the history is deep brings back the text it began from.
pub proof fn undo_commands_reach_the_origin(s: EditorState)
    requires
        s.history.wf(),
        s.history.depth == 0,
        s.in_step(),
    ensures
        after_undos(s, s.history.cursor as nat).text == s.origin(),
        after_undos(s, s.history.cursor as nat).history.cursor == 0,
    decreases s.history.cursor,
{
    if s.history.cursor > 0 {
        an_undo_command_steps_back(s, None);
        undo_commands_reach_the_origin(state::ran(s, Command::Undo, None, 0).state);
    } else {
        undo::lemma_nothing_open(s.history, s.text);
        reveal(undo::origin);
    }
}

/// The history after `n` undo and redo commands is that after `n` steps, but for
/// the caret of a group that is not open.
proof fn lemma_after_undos(s: EditorState, n: nat)
    requires
        s.history.wf(),
        s.history.depth == 0,
        s.in_step(),
    ensures
        ({
            let (h, t) = undo::undo_times(s.history, s.text, n);
            let u = after_undos(s, n);
            &&& u.text == t
            &&& same_history(u.history, h)
            &&& u.history.wf()
            &&& u.history.depth == 0
            &&& u.in_step()
        }),
    decreases n,
{
    if n > 0 {
        an_undo_command_steps_back(s, None);
        let r = state::ran(s, Command::Undo, None, 0).state;
        lemma_after_undos(r, (n - 1) as nat);
        lemma_undo_times_alike(r.history, s.history.undone(), r.text, (n - 1) as nat);
    }
}

/// Whether two histories differ in nothing but the caret of a group that is not
/// open.
spec fn same_history(g: HistoryState, h: HistoryState) -> bool {
    g == (HistoryState { open_from: g.open_from, ..h })
}

proof fn lemma_undo_times_alike(g: HistoryState, h: HistoryState, t: Seq<u8>, n: nat)
    requires
        same_history(g, h),
    ensures
        undo::undo_times(g, t, n).1 == undo::undo_times(h, t, n).1,
        same_history(undo::undo_times(g, t, n).0, undo::undo_times(h, t, n).0),
    decreases n,
{
    if n > 0 {
        lemma_undo_times_alike(
            g.undone(),
            h.undone(),
            history::run(t, h.undo_step().changes),
            (n - 1) as nat,
        );
    }
}

proof fn lemma_redo_times_alike(g: HistoryState, h: HistoryState, t: Seq<u8>, n: nat)
    requires
        same_history(g, h),
    ensures
        undo::redo_times(g, t, n).1 == undo::redo_times(h, t, n).1,
        same_history(undo::redo_times(g, t, n).0, undo::redo_times(h, t, n).0),
    decreases n,
{
    if n > 0 {
        lemma_redo_times_alike(
            g.redone(),
            h.redone(),
            history::run(t, h.redo_step().changes),
            (n - 1) as nat,
        );
    }
}

proof fn lemma_after_redos(s: EditorState, n: nat)
    requires
        s.history.wf(),
        s.history.depth == 0,
        s.in_step(),
    ensures
        after_redos(s, n).text == undo::redo_times(s.history, s.text, n).1,
    decreases n,
{
    if n > 0 {
        a_redo_command_steps_forward(s, None);
        let r = state::ran(s, Command::Redo, None, 0).state;
        lemma_after_redos(r, (n - 1) as nat);
        lemma_redo_times_alike(r.history, s.history.redone(), r.text, (n - 1) as nat);
    }
}

/// Redoing as often as one undid brings back the text.
pub proof fn redo_commands_retrace_undo(s: EditorState, n: nat)
    requires
        s.history.wf(),
        s.history.depth == 0,
        s.in_step(),
        n <= s.history.cursor,
    ensures
        after_redos(after_undos(s, n), n).text == s.text,
{
    if n > 0 {
        lemma_after_undos(s, n);
        let u = after_undos(s, n);
        lemma_after_redos(u, n);
        let (h, t) = undo::undo_times(s.history, s.text, n);
        lemma_redo_times_alike(u.history, h, t, n);
        undo::redo_retraces_undo(s.history, s.text, n);
    }
}

/// Whether the editor is in normal mode under the default scheme, with nothing
/// pending, no history group open, and a history that has seen every change.
pub open spec fn ready(s: EditorState) -> bool {
    &&& s.keymap == keymap::vim_state()
    &&& s.mode == Mode::Normal
    &&& s.pending == PendingState::fresh()
    &&& s.history.wf()
    &&& s.history.depth == 0
    &&& s.in_step()
}

/// Stepping through the history changes neither mode, pending keys nor bindings.
proof fn lemma_reverting_keeps(s: EditorState, command: Command<Seq<char>>)
    requires
        command == Command::<Seq<char>>::Undo || command == Command::<Seq<char>>::Redo,
    ensures
        ({
            let t = state::ran(s, command, None, 0).state;
            &&& t.mode == s.mode
            &&& t.pending == s.pending
            &&& t.keymap == s.keymap
        }),
{
    let begun = EditorState { history: s.history.begun(Some(s.cursor as usize)), ..s };
    let start = Turn { state: begun, effects: Seq::empty() };
    reveal(Turn::acted);
    reveal(Turn::undone);
    reveal(Turn::redone);
    reveal(Turn::reverted);
    let doc = DocumentState { text: begun.text, history: begun.history };
    let (after, changes) = if command is Undo {
        (doc.undone(), begun.history.undo_step().changes)
    } else {
        (doc.redone(), begun.history.redo_step().changes)
    };
    let mid = start.to(EditorState { text: after.text, history: after.history, ..begun });
    lemma_reported_keeps(mid, changes, changes.len() as int);
    let t = state::dispatched(begun, command, None, 0);
    assert(t == start.acted(command, None));
    lemma_change_marked_keeps(t.state, t.effects);
}

/// A key that undoes or redoes does what its command does.
proof fn lemma_reverting_key(s: EditorState, key: Key, command: Command<Seq<char>>)
    requires
        ready(s),
        command == Command::<Seq<char>>::Undo || command == Command::<Seq<char>>::Redo,
        key.digit() is None,
        key != key::plain('q'),
        keymap::binds(keymap::vim_state(), Layer::Normal, key, Binding::Command(command)),
    ensures
        ({
            let p = s.heard(key);
            let t = state::handled(s, key, 0).state;
            &&& p.text == s.text
            &&& p.history == s.history
            &&& t.text == state::ran(p, command, None, 0).state.text
            &&& t.history == state::ran(p, command, None, 0).state.history
            &&& t.mode == Mode::Normal
            &&& t.pending == PendingState::fresh()
            &&& t.keymap == keymap::vim_state()
        }),
{
    pending::a_bound_key_runs_its_command(key, s.mode, s.keymap, command);
    reveal(EditorState::heard);
    let h = s.heard(key);
    let p = EditorState { pending: PendingState::fresh(), ..h };
    assert(p == h);
    lemma_reverting_keeps(p, command);
    reveal(EditorState::shaped);
    reveal(EditorState::noted);
}

/// `<C-r>`.
pub open spec fn redo_key() -> Key {
    Key { code: KeyCode::Char('r'), mods: Mods::CTRL }
}

/// Under the default scheme `u` takes the most recent step back, and the editor is
/// ready for another.
pub proof fn the_undo_key_steps_back(s: EditorState)
    requires
        ready(s),
    ensures
        ({
            let t = state::handled(s, key::plain('u'), 0).state;
            &&& ready(t)
            &&& t.text == history::run(s.text, s.history.undo_step().changes)
            &&& t.history == (HistoryState { open_from: None, ..s.history.undone() })
            &&& t.origin() == s.origin()
        }),
{
    keymap::the_default_scheme_binds();
    lemma_reverting_key(s, key::plain('u'), Command::Undo);
    an_undo_command_steps_back(s.heard(key::plain('u')), None);
}

/// Under the default scheme `<C-r>` takes the step undone last again, and the editor
/// is ready for another.
pub proof fn the_redo_key_steps_forward(s: EditorState)
    requires
        ready(s),
    ensures
        ({
            let t = state::handled(s, redo_key(), 0).state;
            &&& ready(t)
            &&& t.text == history::run(s.text, s.history.redo_step().changes)
            &&& t.history == (HistoryState { open_from: None, ..s.history.redone() })
            &&& t.origin() == s.origin()
        }),
{
    keymap::the_default_scheme_binds();
    lemma_reverting_key(s, redo_key(), Command::Redo);
    a_redo_command_steps_forward(s.heard(redo_key()), None);
}

/// The editor after `key` was pressed `n` times.
pub open spec fn pressed(s: EditorState, key: Key, n: nat) -> EditorState
    decreases n,
{
    if n == 0 {
        s
    } else {
        pressed(state::handled(s, key, 0).state, key, (n - 1) as nat)
    }
}

/// Under the default scheme, pressing `u` as often as the history is deep brings
/// back the text it began from.
pub proof fn undo_keys_reach_the_origin(s: EditorState)
    requires
        ready(s),
    ensures
        pressed(s, key::plain('u'), s.history.cursor as nat).text == s.origin(),
        pressed(s, key::plain('u'), s.history.cursor as nat).history.cursor == 0,
        ready(pressed(s, key::plain('u'), s.history.cursor as nat)),
    decreases s.history.cursor,
{
    if s.history.cursor > 0 {
        the_undo_key_steps_back(s);
        undo_keys_reach_the_origin(state::handled(s, key::plain('u'), 0).state);
    } else {
        undo::lemma_nothing_open(s.history, s.text);
        reveal(undo::origin);
    }
}

/// What `n` presses of `u` leave is what `n` steps back leave.
proof fn lemma_undo_keys(s: EditorState, n: nat)
    requires
        ready(s),
    ensures
        ({
            let (h, t) = undo::undo_times(s.history, s.text, n);
            let u = pressed(s, key::plain('u'), n);
            &&& u.text == t
            &&& same_history(u.history, h)
            &&& ready(u)
        }),
    decreases n,
{
    if n > 0 {
        the_undo_key_steps_back(s);
        let r = state::handled(s, key::plain('u'), 0).state;
        lemma_undo_keys(r, (n - 1) as nat);
        lemma_undo_times_alike(r.history, s.history.undone(), r.text, (n - 1) as nat);
    }
}

proof fn lemma_redo_keys(s: EditorState, n: nat)
    requires
        ready(s),
    ensures
        pressed(s, redo_key(), n).text == undo::redo_times(s.history, s.text, n).1,
    decreases n,
{
    if n > 0 {
        the_redo_key_steps_forward(s);
        let r = state::handled(s, redo_key(), 0).state;
        lemma_redo_keys(r, (n - 1) as nat);
        lemma_redo_times_alike(r.history, s.history.redone(), r.text, (n - 1) as nat);
    }
}

/// Under the default scheme, pressing `<C-r>` as often as `u` was pressed brings back
/// the text.
pub proof fn redo_keys_retrace_undo(s: EditorState, n: nat)
    requires
        ready(s),
        n <= s.history.cursor,
    ensures
        pressed(pressed(s, key::plain('u'), n), redo_key(), n).text == s.text,
{
    if n > 0 {
        lemma_undo_keys(s, n);
        let u = pressed(s, key::plain('u'), n);
        lemma_redo_keys(u, n);
        let (h, t) = undo::undo_times(s.history, s.text, n);
        lemma_redo_times_alike(u.history, h, t, n);
        undo::redo_retraces_undo(s.history, s.text, n);
    }
}

/// Typing a character in insert mode reports one edit, and nothing else.
pub proof fn typing_reports_one_edit(turn: Turn, ch: char)
    requires
        turn.state.mode == Mode::Insert,
        turn.state.room(
            turn.state.cursor,
            turn.state.cursor,
            state::char_bytes(ch).len() as int,
        ),
    ensures
        turn.typed(ch).effects == turn.effects.push(
            Effect::Edit(
                edit::staged(
                    turn.state.text,
                    turn.state.cursor,
                    turn.state.cursor,
                    state::char_bytes(ch),
                ).edit,
            ),
        ),
{
    reveal(Turn::typed);
    text::lemma_encode_one(ch);
    text::lemma_char_width(ch);
}

/// Going back along the jump list from the present and forward again returns to where
/// the cursor was.
pub proof fn a_jump_back_can_be_retraced(turn: Turn)
    requires
        0 < turn.state.jumps.len() <= state::MAX_JUMPS,
        turn.state.jump_at == turn.state.jumps.len(),
        0 <= turn.state.cursor <= usize::MAX,
    ensures
        ({
            let s = turn.state;
            let there = turn.jumped_back().jumped_forward();
            &&& there.state.cursor == grapheme::clamped(s.text, s.cursor, s.rest())
            &&& there.state.jump_at == there.state.jumps.len()
            &&& there.effects == turn.effects
        }),
{
    reveal(Turn::jumped_back);
    reveal(Turn::jumped_forward);
    let s = turn.state;
    let all = s.jumps.take(s.jump_at).push(s.cursor as usize);
    assert(s.jump_pushed().jumps.last() == s.cursor as usize);
}

} // verus!
