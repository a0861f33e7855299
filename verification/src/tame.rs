//! What the keys remembered for `.` are, in an editor under the default scheme.
//!
//! However the editor came to be as it is, the keys of its last change can be
//! replayed: typed in normal mode with nothing pending they are sober.

use vstd::prelude::*;

use crate::caret;
use crate::command::{AwaitChar, Command, Mode, Operator, Target, VisualKind};
use crate::dot;
use crate::edit::Delta;
use crate::key;
use crate::key::Key;
use crate::keymap;
use crate::keymap::{Binding, Layer, Walk};
use crate::pending;
use crate::pending::{Outcome, PendingState};
use crate::promises;
use crate::state;
use crate::state::{EditorState, Property, Turn};

verus! {

// ---------------------------------------------------------------------------
// keys one after the other
// ---------------------------------------------------------------------------

/// The mode and the keys pending after the keys from the `i`th on, where each command
/// finds what it acts on.
pub open spec fn arrives(mode: Mode, pending: PendingState, keys: Seq<Key>, i: int) -> (
    Mode,
    PendingState,
)
    decreases keys.len() - i,
{
    if !(0 <= i < keys.len()) {
        (mode, pending)
    } else {
        let (m, p) = dot::led(mode, pending, keys[i]);
        arrives(m, p, keys, i + 1)
    }
}

proof fn lemma_later(m: Mode, p: PendingState, a: Seq<Key>, b: Seq<Key>, j: int)
    requires
        0 <= j <= b.len(),
    ensures
        arrives(m, p, a + b, a.len() + j) == arrives(m, p, b, j),
        dot::sober(m, p, a + b, a.len() + j) == dot::sober(m, p, b, j),
    decreases b.len() - j,
{
    if j < b.len() {
        assert((a + b)[a.len() + j] == b[j]);
        let (n, q) = dot::led(m, p, b[j]);
        lemma_later(n, q, a, b, j + 1);
    }
}

/// Keys typed after others go on from where those led.
proof fn lemma_joined(m: Mode, p: PendingState, a: Seq<Key>, b: Seq<Key>, i: int)
    requires
        0 <= i <= a.len(),
    ensures
        ({
            let (n, q) = arrives(m, p, a, i);
            &&& arrives(m, p, a + b, i) == arrives(n, q, b, 0)
            &&& dot::sober(m, p, a + b, i) == (dot::sober(m, p, a, i) && dot::sober(n, q, b, 0))
        }),
    decreases a.len() - i,
{
    if i < a.len() {
        assert((a + b)[i] == a[i]);
        let (n, q) = dot::led(m, p, a[i]);
        lemma_joined(n, q, a, b, i + 1);
    } else {
        lemma_later(m, p, a, b, 0);
    }
}

/// One more key goes on from where the others led.
proof fn lemma_pushed(m: Mode, p: PendingState, keys: Seq<Key>, key: Key)
    ensures
        ({
            let (n, q) = arrives(m, p, keys, 0);
            &&& arrives(m, p, keys.push(key), 0) == dot::led(n, q, key)
            &&& dot::sober(m, p, keys.push(key), 0) == (dot::sober(m, p, keys, 0) && dot::passes(
                n,
                q,
                key,
            ))
        }),
{
    assert(keys.push(key) =~= keys + seq![key]);
    lemma_joined(m, p, keys, seq![key], 0);
    let (n, q) = arrives(m, p, keys, 0);
    reveal_with_fuel(arrives, 3);
    reveal_with_fuel(dot::sober, 3);
    assert(seq![key][0] == key);
}

// ---------------------------------------------------------------------------
// what the parser holds
// ---------------------------------------------------------------------------

/// Whether the keys pending lead from nothing pending to where the parser is, in
/// `mode`.
spec fn follows(mode: Mode, p: PendingState) -> bool {
    &&& arrives(mode, PendingState::fresh(), p.keys, 0) == (mode, p)
    &&& dot::sober(mode, PendingState::fresh(), p.keys, 0) || (mode.commands() && p.awaiting
        == Some(AwaitChar::RecordMacro))
}

/// What holds of the keys pending in `mode`. Over a selection nothing awaits an
/// operator's target, and unless an object is being named, the keys mean the same in
/// normal mode.
pub closed spec fn parsed(mode: Mode, p: PendingState) -> bool {
    &&& 0 <= p.path_start <= p.keys.len()
    &&& p.blank() ==> p.path_start == 0
    &&& follows(mode, p)
    &&& mode is Visual ==> {
        &&& p.operator is None
        &&& p.scope is Some ==> p.awaiting is None && p.search is None
        &&& follows(Mode::Visual(VisualKind::Char), p)
        &&& follows(Mode::Visual(VisualKind::Line), p)
        &&& p.scope is Some || follows(Mode::Normal, p)
    }
}

/// Nothing pending is where nothing leads.
pub proof fn nothing_pending_is_parsed(mode: Mode)
    ensures
        parsed(mode, PendingState::fresh()),
{
}

/// A key that leaves the sequence partial.
proof fn lemma_partial(mode: Mode, p: PendingState, key: Key)
    requires
        0 <= p.path_start <= p.keys.len(),
        p.blank() ==> p.path_start == 0,
        follows(mode, p),
        p.fed(key, mode, keymap::vim_state()).1 is Pending,
    ensures
        follows(mode, p.fed(key, mode, keymap::vim_state()).0),
{
    let q = p.fed(key, mode, keymap::vim_state()).0;
    pending::the_parser_always_resets(p, key, mode, keymap::vim_state());
    lemma_pushed(mode, PendingState::fresh(), p.keys, key);
    if p.awaiting == Some(AwaitChar::RecordMacro) && mode.commands() {
        reveal(PendingState::fed);
        assert(false);
    }
    if !dot::passes(mode, p, key) {
        assert(p.keys.len() == 0);
        assert(p =~= PendingState::fresh());
        keymap::the_recording_key_awaits_a_register();
        keymap::a_bound_key_is_walked(
            keymap::vim_state(),
            Layer::Normal,
            key,
            Binding::Await(AwaitChar::RecordMacro),
        );
        reveal(PendingState::fed);
        assert(p.keys.push(key).skip(0) =~= seq![key]);
    }
}

/// In visual mode the parser does the same whatever the kind of selection, and the
/// same as in normal mode, but for keys that have a meaning only over a selection.
proof fn lemma_layers(kind: VisualKind, other: VisualKind, p: PendingState, key: Key)
    requires
        0 <= p.path_start <= p.keys.len(),
        p.operator is None,
        p.scope is Some ==> p.awaiting is None && p.search is None,
    ensures
        ({
            let m = keymap::vim_state();
            let (q, outcome) = p.fed(key, Mode::Visual(kind), m);
            &&& p.fed(key, Mode::Visual(other), m) == (q, outcome)
            &&& outcome is Pending ==> q.operator is None
            &&& outcome is Pending && p.scope is Some ==> q.scope is Some
            &&& outcome is Pending && q.scope is Some ==> q.awaiting is None && q.search is None
            &&& outcome is Pending && p.scope is None && q.scope is None ==> p.fed(
                key,
                Mode::Normal,
                m,
            ) == (q, outcome)
            &&& outcome matches Outcome::Command { command, .. } ==> {
                &&& command is Operate ==> EditorState::acts_on_selection(command) || ({
                    &&& command->target == Target::<Seq<char>>::Motion(
                        crate::command::Motion::LastColumn,
                    )
                    &&& p.scope is None
                })
                &&& !(command is SurroundSelection)
                &&& notable(command) && !EditorState::acts_on_selection(command) ==> p.scope
                    is None && p.fed(key, Mode::Normal, m) == (q, outcome)
            }
        }),
{
    reveal(PendingState::fed);
    keymap::the_default_scheme_is_layered();
    let m = keymap::vim_state();
    let path = p.keys.push(key).skip(p.path_start);
    assert(path.len() > 0);
    if let Walk::Prefix = keymap::walk_of(m.visual, path) {
        let s = choose|s: Seq<Key>| #[trigger]
            m.visual.dom().contains(s) && path.is_prefix_of(s);
        assert(s.len() == 1);
        assert(path =~= s);
    }
}

/// Whether `.` remembers the keys of `command` as its own.
pub open spec fn notable(command: Command<Seq<char>>) -> bool {
    match command {
        Command::Operate { operator, .. } => operator != Operator::Yank,
        Command::EnterInsert(_)
        | Command::EnterReplace
        | Command::DeleteChar { .. }
        | Command::ReplaceChar(_)
        | Command::ChangeSurround { .. }
        | Command::DeleteSurround(_)
        | Command::SurroundSelection(_)
        | Command::JoinRows
        | Command::Put { .. }
        | Command::SwapCase => true,
        _ => false,
    }
}

/// The parser goes on as it began.
pub proof fn a_partial_sequence_stays_parsed(mode: Mode, p: PendingState, key: Key)
    requires
        parsed(mode, p),
        p.fed(key, mode, keymap::vim_state()).1 is Pending,
    ensures
        parsed(mode, p.fed(key, mode, keymap::vim_state()).0),
{
    let q = p.fed(key, mode, keymap::vim_state()).0;
    lemma_partial(mode, p, key);
    assert(0 <= q.path_start <= q.keys.len() && (q.blank() ==> q.path_start == 0)) by {
        reveal(PendingState::fed);
    }
    if let Mode::Visual(kind) = mode {
        lemma_layers(kind, VisualKind::Char, p, key);
        lemma_layers(kind, VisualKind::Line, p, key);
        lemma_partial(Mode::Visual(VisualKind::Char), p, key);
        lemma_partial(Mode::Visual(VisualKind::Line), p, key);
        if p.scope is None && q.scope is None {
            lemma_partial(Mode::Normal, p, key);
        }
    }
}

/// The keys of a command that `key` completes lead where it leads.
proof fn lemma_completed(mode: Mode, p: PendingState, key: Key)
    requires
        follows(mode, p),
        p.fed(key, mode, keymap::vim_state()).1 is Command,
    ensures
        p.fed(key, mode, keymap::vim_state()).1 matches Outcome::Command { command, .. } && ({
            let keys = p.keys.push(key);
            &&& arrives(mode, PendingState::fresh(), keys, 0) == (
                dot::mode_after(mode, command),
                PendingState::fresh(),
            )
            &&& dot::sober(mode, PendingState::fresh(), keys, 0) == !dot::worldly(command)
        }),
{
    pending::the_parser_always_resets(p, key, mode, keymap::vim_state());
    lemma_pushed(mode, PendingState::fresh(), p.keys, key);
    reveal(PendingState::fed);
    if p.idle() && key == key::plain('q') && mode == Mode::Normal {
        assert(p.keys.push(key).skip(p.path_start) =~= seq![key]);
        keymap::the_recording_key_awaits_a_register();
        keymap::a_bound_key_is_walked(
            keymap::vim_state(),
            Layer::Normal,
            key,
            Binding::Await(AwaitChar::RecordMacro),
        );
        assert(false);
    }
}

/// In normal mode no command acts on a selection, and in insert mode every command is
/// one of insert mode's own.
proof fn lemma_other_layers(p: PendingState, key: Key)
    requires
        0 <= p.path_start <= p.keys.len(),
    ensures
        p.fed(key, Mode::Normal, keymap::vim_state()).1 matches Outcome::Command { command, .. }
            ==> !EditorState::acts_on_selection(command),
        forall|mode: Mode|
            !mode.commands() ==> (#[trigger] p.fed(key, mode, keymap::vim_state()).1 matches
                Outcome::Command { command, .. } ==> keymap::inserting(
                Binding::Command(command),
            )),
{
    reveal(PendingState::fed);
    keymap::the_default_scheme_is_layered();
}

// ---------------------------------------------------------------------------
// what the editor remembers
// ---------------------------------------------------------------------------

/// Whether `keys`, typed in normal mode with nothing pending, are sober.
pub open spec fn replayable(keys: Seq<Key>) -> bool {
    dot::sober(Mode::Normal, PendingState::fresh(), keys, 0)
}

/// Where `keys` lead, typed in normal mode with nothing pending.
pub open spec fn whereto(keys: Seq<Key>) -> (Mode, PendingState) {
    arrives(Mode::Normal, PendingState::fresh(), keys, 0)
}

/// What holds of an editor under the default scheme: a selection under way has two
/// ends, the keys of the last change can be replayed and end where they began, those of
/// an insert session lead to where the editor is, and those that shaped a selection lead
/// to it if they can be replayed.
pub open spec fn tame(s: EditorState) -> bool {
    &&& s.keymap == keymap::vim_state()
    &&& s.mode is Visual ==> s.anchor is Some
    &&& parsed(s.mode, s.pending)
    &&& replayable(s.last_change)
    &&& whereto(s.last_change) == (Mode::Normal, PendingState::fresh())
    &&& !s.mode.commands() ==> {
        &&& s.change_keys is Some
        &&& replayable(s.change_keys->0)
        &&& whereto(s.change_keys->0) == (s.mode, s.pending)
    }
    &&& s.mode is Visual && replayable(s.visual_keys) ==> whereto(s.visual_keys) == (
        s.mode,
        PendingState::fresh(),
    )
}

/// Commands that have `.` remember keys that cannot be replayed: an operator over a
/// selection that was shaped by a worldly command, and `<Esc>` outside insert mode
/// after a change that found nothing to change.
pub open spec fn wayward() -> Property {
    |s: EditorState, command: Command<Seq<char>>|
        {
            ||| command is EnterNormal && s.mode.commands() && s.change_keys is Some
            ||| EditorState::acts_on_selection(command) && !replayable(s.visual_keys)
        }
}

/// A new editor is tame.
pub proof fn a_fresh_editor_is_tame(t: Seq<u8>)
    ensures
        tame(EditorState::fresh(t, keymap::vim_state())),
{
    nothing_pending_is_parsed(Mode::Normal);
}

/// A key that completes no command.
proof fn lemma_tame_partial(s: EditorState, key: Key, d: int)
    requires
        tame(s),
        !state::stops_recording(s, key, d),
        !(s.pending.fed(key, s.mode, s.keymap).1 is Command),
    ensures
        tame(state::handled(s, key, d).state),
{
    dot::lemma_step(s, key, d);
    pending::the_parser_always_resets(s.pending, key, s.mode, s.keymap);
    let t = state::handled(s, key, d).state;
    nothing_pending_is_parsed(s.mode);
    if s.pending.fed(key, s.mode, s.keymap).1 is Pending {
        a_partial_sequence_stays_parsed(s.mode, s.pending, key);
    }
    reveal(EditorState::heard);
    if !s.mode.commands() {
        lemma_pushed(Mode::Normal, PendingState::fresh(), s.change_keys->0, key);
    }
}

/// A key that completes a command of insert mode.
proof fn lemma_tame_insert(s: EditorState, key: Key, d: int)
    requires
        tame(s),
        !s.mode.commands(),
        s.pending.fed(key, s.mode, s.keymap).1 is Command,
    ensures
        tame(state::handled(s, key, d).state),
{
    lemma_other_layers(s.pending, key);
    let (pending, outcome) = s.pending.fed(key, s.mode, s.keymap);
    if let Outcome::Command { command, .. } = outcome {
        assert(keymap::inserting(Binding::Command(command)));
        dot::lemma_step(s, key, d);
        pending::the_parser_always_resets(s.pending, key, s.mode, s.keymap);
        let t = state::handled(s, key, d).state;
        nothing_pending_is_parsed(t.mode);
        lemma_pushed(Mode::Normal, PendingState::fresh(), s.change_keys->0, key);
        reveal(EditorState::heard);
        reveal(EditorState::shaped);
        reveal(EditorState::noted);
    }
}

/// A key that completes a command of normal mode.
proof fn lemma_tame_normal(s: EditorState, key: Key, d: int)
    requires
        tame(s),
        s.mode == Mode::Normal,
        !state::stops_recording(s, key, d),
        s.pending.fed(key, s.mode, s.keymap).1 matches Outcome::Command { command, .. } && {
            &&& !dot::worldly(command)
            &&& !(command is EnterNormal && s.change_keys is Some)
        },
    ensures
        tame(state::handled(s, key, d).state),
{
    lemma_other_layers(s.pending, key);
    let (pending, outcome) = s.pending.fed(key, s.mode, s.keymap);
    if let Outcome::Command { command, .. } = outcome {
        dot::lemma_step(s, key, d);
        pending::the_parser_always_resets(s.pending, key, s.mode, s.keymap);
        lemma_completed(s.mode, s.pending, key);
        let t = state::handled(s, key, d).state;
        nothing_pending_is_parsed(t.mode);
        reveal(EditorState::heard);
        reveal(EditorState::shaped);
        reveal(EditorState::noted);
    }
}

/// A key that completes a command of visual mode.
proof fn lemma_tame_visual(s: EditorState, key: Key, d: int)
    requires
        tame(s),
        s.mode is Visual,
        !state::stops_recording(s, key, d),
        s.pending.fed(key, s.mode, s.keymap).1 matches Outcome::Command { command, .. } && {
            &&& !dot::worldly(command)
            &&& !(command is EnterNormal && s.change_keys is Some)
            &&& !(EditorState::acts_on_selection(command) && !replayable(s.visual_keys))
        },
    ensures
        tame(state::handled(s, key, d).state),
{
    let (pending, outcome) = s.pending.fed(key, s.mode, s.keymap);
    if let (Outcome::Command { command, .. }, Mode::Visual(kind)) = (outcome, s.mode) {
        dot::lemma_step(s, key, d);
        pending::the_parser_always_resets(s.pending, key, s.mode, s.keymap);
        lemma_completed(s.mode, s.pending, key);
        lemma_layers(kind, kind, s.pending, key);
        let keys = s.pending.keys.push(key);
        if notable(command) && !EditorState::acts_on_selection(command) {
            lemma_completed(Mode::Normal, s.pending, key);
        }
        lemma_joined(Mode::Normal, PendingState::fresh(), s.visual_keys, keys, 0);
        let t = state::handled(s, key, d).state;
        nothing_pending_is_parsed(t.mode);
        reveal(EditorState::heard);
        reveal(EditorState::shaped);
        reveal(EditorState::noted);
    }
}

/// Whether nothing differs that a command only passes on.
spec fn same_manners(s: EditorState, t: EditorState) -> bool {
    &&& t.keymap == s.keymap
    &&& t.replay_depth == s.replay_depth
    &&& t.insert_group == s.insert_group
    &&& t.mode == s.mode
    &&& t.anchor == s.anchor
    &&& t.pending == s.pending
    &&& dot::untold(s, t)
}

proof fn lemma_reported(a: Turn, changes: Seq<Delta>, n: int)
    ensures
        same_manners(a.state, a.reported(changes, n).state),
    decreases n,
{
    if n > 0 {
        lemma_reported(a, changes, n - 1);
    }
}

/// Stepping through the history and beginning a recording change neither mode,
/// selection, bindings nor remembered keys.
proof fn lemma_worldly(a: Turn, command: Command<Seq<char>>, count: Option<usize>)
    requires
        command is Undo || command is Redo || command is RecordMacro,
    ensures
        same_manners(a.state, a.acted(command, count).state),
{
    reveal(Turn::acted);
    reveal(Turn::undone);
    reveal(Turn::redone);
    reveal(Turn::reverted);
    assert forall|t: Turn, changes: Seq<Delta>, n: int| same_manners(
        t.state,
        #[trigger] t.reported(changes, n).state,
    ) by {
        lemma_reported(t, changes, n);
    }
}

proof fn lemma_handled(s: EditorState, key: Key, d: int)
    requires
        0 <= d <= 64,
        tame(s),
        !state::meets(s, key, d, wayward()),
    ensures
        tame(state::handled(s, key, d).state),
    decreases 65 - d, 3int, 0int, 0int,
{
    if !state::stops_recording(s, key, d) {
        let (pending, outcome) = s.pending.fed(key, s.mode, s.keymap);
        if let Outcome::Command { command, count, keys } = outcome {
            if !s.mode.commands() {
                lemma_tame_insert(s, key, d);
            } else {
                let h = s.heard(key);
                assert(dot::untold(EditorState { change_keys: h.change_keys, ..s }, h)
                    && h.keymap == s.keymap && h.mode == s.mode && h.anchor == s.anchor
                    && h.pending == s.pending && (h.change_keys is Some <==> s.change_keys
                    is Some)) by {
                    reveal(EditorState::heard);
                }
                let p = EditorState { pending, ..h };
                let begun = EditorState { history: p.history.begun(Some(p.cursor as usize)), ..p };
                assert(!wayward()(EditorState { replay_depth: d, ..begun }, command));
                if dot::worldly(command) {
                    pending::the_parser_always_resets(s.pending, key, s.mode, s.keymap);
                    nothing_pending_is_parsed(s.mode);
                    lemma_ran(p, command, count, d);
                    lemma_tame_worldly(s, p, key, d);
                } else if s.mode == Mode::Normal {
                    lemma_tame_normal(s, key, d);
                } else {
                    lemma_tame_visual(s, key, d);
                }
            }
        } else {
            lemma_tame_partial(s, key, d);
        }
    }
}

/// A worldly command leaves a tame editor tame, if running it does.
proof fn lemma_tame_worldly(s: EditorState, p: EditorState, key: Key, d: int)
    requires
        tame(s),
        s.mode.commands(),
        !state::stops_recording(s, key, d),
        p == (EditorState { pending: PendingState::fresh(), ..s.heard(key) }),
        s.pending.fed(key, s.mode, s.keymap).1 matches Outcome::Command { command, count, .. }
            && dot::worldly(command) && tame(state::ran(p, command, count, d).state),
    ensures
        tame(state::handled(s, key, d).state),
{
    let (pending, outcome) = s.pending.fed(key, s.mode, s.keymap);
    if let Outcome::Command { command, count, keys } = outcome {
        pending::the_parser_always_resets(s.pending, key, s.mode, s.keymap);
        reveal(EditorState::heard);
        let was = s.mode is Visual;
        let r = state::ran(p, command, count, d).state;
        let t = state::handled(s, key, d).state;
        assert(t == r.shaped(was, keys)) by {
            reveal(EditorState::noted);
        }
        reveal(EditorState::shaped);
        if let Mode::Visual(kind) = r.mode {
            assert(!replayable(t.visual_keys)) by {
                if let Mode::Visual(before) = s.mode {
                    lemma_layers(before, kind, s.pending, key);
                    lemma_completed(r.mode, s.pending, key);
                    lemma_joined(Mode::Normal, PendingState::fresh(), r.visual_keys, keys, 0);
                } else {
                    lemma_completed(s.mode, s.pending, key);
                }
            }
        }
    }
}

proof fn lemma_ran(s: EditorState, command: Command<Seq<char>>, count: Option<usize>, d: int)
    requires
        0 <= d <= 64,
        tame(s),
        dot::worldly(command),
        !state::runs_any(
            EditorState { history: s.history.begun(Some(s.cursor as usize)), ..s },
            command,
            count,
            d,
            wayward(),
        ),
    ensures
        tame(state::ran(s, command, count, d).state),
    decreases 65 - d, 2int, 0int, 0int,
{
    let begun = EditorState { history: s.history.begun(Some(s.cursor as usize)), ..s };
    let t = state::dispatched(begun, command, count, d);
    if !state::replays(command) {
        lemma_worldly(Turn { state: begun, effects: Seq::empty() }, command, count);
    } else if let Some(script) = state::script_of(begun, command) {
        if d < 64 {
            let times = match count {
                Some(n) => n as int,
                None => 1,
            };
            lemma_replayed(EditorState { replay_depth: d + 1, ..begun }, script, times, 0, d + 1);
        }
    }
    reveal(EditorState::change_marked);
}

proof fn lemma_replayed(s: EditorState, script: Seq<Key>, times: int, i: int, d: int)
    requires
        1 <= d <= 64,
        tame(s),
        !state::replays_any(s, script, times, i, d, wayward()),
    ensures
        tame(state::replayed(s, script, times, i, d).state),
    decreases
            65 - d,
            4int,
            if times > 0 {
                times
            } else {
                0
            },
            script.len() - i,
{
    if times > 0 {
        if !(0 <= i < script.len()) {
            if script.len() > 0 {
                lemma_replayed(s, script, times - 1, 0, d);
            }
        } else {
            lemma_handled(s, script[i], d);
            lemma_replayed(state::handled(s, script[i], d).state, script, times, i + 1, d);
        }
    }
}

/// A tame editor stays tame, whatever is typed, unless a wayward command runs.
pub proof fn the_editor_stays_tame(s: EditorState, keys: Seq<Key>, i: int)
    requires
        tame(s),
        0 <= i <= keys.len(),
        !state::any_meets(s, keys, i, 0, wayward()),
    ensures
        tame(state::all_handled(s, keys, i, 0).state),
    decreases keys.len() - i,
{
    if i < keys.len() {
        lemma_handled(s, keys[i], 0);
        the_editor_stays_tame(state::handled(s, keys[i], 0).state, keys, i + 1);
    }
}

/// What else holds of an editor under the default scheme, `depth` replays deep: the
/// undo group of an insert session is open just while one is under way.
pub open spec fn orderly(s: EditorState, depth: int) -> bool {
    &&& s.keymap == keymap::vim_state()
    &&& s.replay_depth == depth
    &&& 0 <= s.pending.path_start <= s.pending.keys.len()
    &&& dot::attended(s)
}

proof fn lemma_orderly_handled(s: EditorState, key: Key, d: int)
    requires
        0 <= d <= 64,
        orderly(s, d),
    ensures
        orderly(state::handled(s, key, d).state, d),
    decreases 65 - d, 3int, 0int, 0int,
{
    if !state::stops_recording(s, key, d) {
        let (pending, outcome) = s.pending.fed(key, s.mode, s.keymap);
        assert(0 <= pending.path_start <= pending.keys.len()) by {
            reveal(PendingState::fed);
        }
        lemma_other_layers(s.pending, key);
        let worldly = match outcome {
            Outcome::Command { command, .. } => dot::worldly(command),
            _ => false,
        };
        if worldly {
            if let Outcome::Command { command, count, keys } = outcome {
                assert(s.mode.commands()) by {
                    assert(!keymap::inserting(Binding::Command(command)));
                }
                reveal(EditorState::heard);
                let p = EditorState { pending, ..s.heard(key) };
                lemma_orderly_ran(p, command, count, d);
                reveal(EditorState::shaped);
                reveal(EditorState::noted);
            }
        } else {
            dot::lemma_step(s, key, d);
        }
    }
}

proof fn lemma_orderly_ran(
    s: EditorState,
    command: Command<Seq<char>>,
    count: Option<usize>,
    d: int,
)
    requires
        0 <= d <= 64,
        orderly(s, d),
        dot::worldly(command),
    ensures
        orderly(state::ran(s, command, count, d).state, d),
    decreases 65 - d, 2int, 0int, 0int,
{
    let begun = EditorState { history: s.history.begun(Some(s.cursor as usize)), ..s };
    reveal(EditorState::change_marked);
    if !state::replays(command) {
        lemma_worldly(Turn { state: begun, effects: Seq::empty() }, command, count);
    } else if let Some(script) = state::script_of(begun, command) {
        if d < 64 {
            let times = match count {
                Some(n) => n as int,
                None => 1,
            };
            lemma_orderly_replayed(
                EditorState { replay_depth: d + 1, ..begun },
                script,
                times,
                0,
                d + 1,
            );
        }
    }
}

proof fn lemma_orderly_replayed(s: EditorState, script: Seq<Key>, times: int, i: int, d: int)
    requires
        1 <= d <= 64,
        orderly(s, d),
    ensures
        orderly(state::replayed(s, script, times, i, d).state, d),
    decreases
            65 - d,
            4int,
            if times > 0 {
                times
            } else {
                0
            },
            script.len() - i,
{
    if times > 0 {
        if !(0 <= i < script.len()) {
            if script.len() > 0 {
                lemma_orderly_replayed(s, script, times - 1, 0, d);
            }
        } else {
            lemma_orderly_handled(s, script[i], d);
            lemma_orderly_replayed(state::handled(s, script[i], d).state, script, times, i + 1, d);
        }
    }
}

/// Whatever is typed, the bindings stay, and an insert session has its undo group
/// open just while it is under way.
pub proof fn the_editor_stays_orderly(s: EditorState, keys: Seq<Key>, i: int)
    requires
        orderly(s, 0),
        0 <= i <= keys.len(),
    ensures
        orderly(state::all_handled(s, keys, i, 0).state, 0),
    decreases keys.len() - i,
{
    if i < keys.len() {
        lemma_orderly_handled(s, keys[i], 0);
        the_editor_stays_orderly(state::handled(s, keys[i], 0).state, keys, i + 1);
    }
}

/// The editor after `keys` were typed into a new one over `t`, under the default
/// scheme.
pub open spec fn typed_into(t: Seq<u8>, keys: Seq<Key>) -> EditorState {
    state::all_handled(EditorState::fresh(t, keymap::vim_state()), keys, 0, 0).state
}

/// A new editor is at rest, once it is sound.
proof fn lemma_at_rest(t: Seq<u8>, keys: Seq<Key>)
    requires
        typed_into(t, keys).wf(),
        typed_into(t, keys).mode == Mode::Normal,
        typed_into(t, keys).pending == PendingState::fresh(),
    ensures
        dot::at_rest(typed_into(t, keys)),
{
    the_editor_stays_orderly(EditorState::fresh(t, keymap::vim_state()), keys, 0);
}

/// Under the default scheme `.` does what typing the keys of the last change again
/// would do, whatever was typed before, in normal mode with nothing pending: unless
/// something comes between the two.
pub proof fn dot_repeats_whatever_was_typed(t: Seq<u8>, keys: Seq<Key>)
    requires
        typed_into(t, keys).wf(),
        typed_into(t, keys).mode == Mode::Normal,
        typed_into(t, keys).pending == PendingState::fresh(),
        typed_into(t, keys).last_change.len() > 0,
        dot::undisturbed(typed_into(t, keys)),
    ensures
        dot::repeats(typed_into(t, keys)),
{
    lemma_at_rest(t, keys);
    dot::the_dot_key_repeats_the_last_change(typed_into(t, keys));
}

/// Nothing comes between replaying a change and typing it where every command among
/// its keys finds what it acts on, unless a wayward command ran before: so `.` repeats
/// such a change.
pub proof fn dot_repeats_a_change_that_hits(t: Seq<u8>, keys: Seq<Key>)
    requires
        typed_into(t, keys).wf(),
        typed_into(t, keys).mode == Mode::Normal,
        typed_into(t, keys).pending == PendingState::fresh(),
        typed_into(t, keys).last_change.len() > 0,
        !state::any_meets(
            EditorState::fresh(t, keymap::vim_state()),
            keys,
            0,
            0,
            wayward(),
        ),
        dot::finds(typed_into(t, keys), typed_into(t, keys).last_change, 0),
    ensures
        dot::undisturbed(typed_into(t, keys)),
        dot::repeats(typed_into(t, keys)),
{
    a_fresh_editor_is_tame(t);
    the_editor_stays_tame(EditorState::fresh(t, keymap::vim_state()), keys, 0);
    lemma_at_rest(t, keys);
    dot::sober_changes_are_undisturbed(typed_into(t, keys));
    dot_repeats_whatever_was_typed(t, keys);
}

/// Under the default scheme `.` repeats a change that cannot miss what it acts on,
/// whatever the text and whatever was typed before, unless a wayward command ran.
pub proof fn dot_repeats_what_cannot_miss(t: Seq<u8>, keys: Seq<Key>)
    requires
        typed_into(t, keys).wf(),
        typed_into(t, keys).mode == Mode::Normal,
        typed_into(t, keys).pending == PendingState::fresh(),
        typed_into(t, keys).last_change.len() > 0,
        !state::any_meets(
            EditorState::fresh(t, keymap::vim_state()),
            keys,
            0,
            0,
            wayward(),
        ),
        dot::assured(
            Mode::Normal,
            PendingState::fresh(),
            typed_into(t, keys).last_change,
            0,
        ),
    ensures
        dot::repeats(typed_into(t, keys)),
{
    a_fresh_editor_is_tame(t);
    the_editor_stays_tame(EditorState::fresh(t, keymap::vim_state()), keys, 0);
    let e = typed_into(t, keys);
    dot::assured_keys_find(e, e.last_change, 0);
    dot_repeats_a_change_that_hits(t, keys);
}

// ---------------------------------------------------------------------------
// what can be taken back
// ---------------------------------------------------------------------------

/// Replayed commands that take a step back in the history while changes are open.
pub open spec fn backtracking() -> Property {
    |s: EditorState, command: Command<Seq<char>>|
        command is Undo && s.history.open.len() > 0 && s.history.cursor > 0 && s.replay_depth > 0
}

/// Whether no history group is open but that of an insert session.
pub open spec fn bracketed(s: EditorState) -> bool {
    &&& caret::groups_open(s) == 0
    &&& s.history.depth == 0 ==> s.history.open.len() == 0
}

proof fn lemma_midway_backtracks(s: EditorState, key: Key, d: int)
    requires
        1 <= d <= 64,
        !state::meets(s, key, d, backtracking()),
    ensures
        !state::meets(s, key, d, state::reverting_midway()),
    decreases 65 - d, 3int, 0int, 0int,
{
    let h = s.heard(key);
    let (pending, outcome) = h.pending.fed(key, h.mode, h.keymap);
    let q = EditorState { pending, ..h };
    if let Outcome::Command { command, count, .. } = outcome {
        let begun = EditorState { history: q.history.begun(Some(q.cursor as usize)), ..q };
        assert(!backtracking()(EditorState { replay_depth: d, ..begun }, command));
        if let Some(script) = state::script_of(begun, command) {
            if d < 64 {
                let times = match count {
                    Some(n) => n as int,
                    None => 1,
                };
                lemma_midway_backtracks_in(
                    EditorState { replay_depth: d + 1, ..begun },
                    script,
                    times,
                    0,
                    d + 1,
                );
            }
        }
    }
}

proof fn lemma_midway_backtracks_in(s: EditorState, script: Seq<Key>, times: int, i: int, d: int)
    requires
        1 <= d <= 64,
        !state::replays_any(s, script, times, i, d, backtracking()),
    ensures
        !state::replays_any(s, script, times, i, d, state::reverting_midway()),
    decreases
            65 - d,
            4int,
            if times > 0 {
                times
            } else {
                0
            },
            script.len() - i,
{
    if times > 0 {
        if !(0 <= i < script.len()) {
            if script.len() > 0 {
                lemma_midway_backtracks_in(s, script, times - 1, 0, d);
            }
        } else {
            lemma_midway_backtracks(s, script[i], d);
            lemma_midway_backtracks_in(
                state::handled(s, script[i], d).state,
                script,
                times,
                i + 1,
                d,
            );
        }
    }
}

/// A key that is typed leaves no history group open but that of an insert session.
proof fn lemma_bracketed(s: EditorState, key: Key)
    requires
        bracketed(s),
    ensures
        bracketed(state::handled(s, key, 0).state),
{
    reveal(EditorState::heard);
    let h = s.heard(key);
    let (pending, outcome) = h.pending.fed(key, h.mode, h.keymap);
    let p = EditorState { pending, ..h };
    if let Outcome::Command { command, count, keys } = outcome {
        let begun = EditorState { history: p.history.begun(Some(p.cursor as usize)), ..p };
        caret::a_command_stays_in_its_groups(begun, command, count, 0);
        reveal(EditorState::change_marked);
        reveal(EditorState::shaped);
        reveal(EditorState::noted);
    }
}

/// Under the default scheme a key that is typed steps back in the history only when no
/// change is open.
proof fn lemma_typing_is_not_midway(s: EditorState, key: Key)
    requires
        orderly(s, 0),
        bracketed(s),
        !state::meets(s, key, 0, backtracking()),
    ensures
        !state::meets(s, key, 0, state::reverting_midway()),
{
    if !state::stops_recording(s, key, 0) {
        lemma_other_layers(s.pending, key);
        reveal(EditorState::heard);
        let h = s.heard(key);
        let (pending, outcome) = h.pending.fed(key, h.mode, h.keymap);
        let q = EditorState { pending, ..h };
        if let Outcome::Command { command, count, .. } = outcome {
            let begun = EditorState { history: q.history.begun(Some(q.cursor as usize)), ..q };
            if command is Undo {
                assert(s.mode.commands()) by {
                    assert(!keymap::inserting(Binding::Command(command)));
                }
            }
            assert(!state::reverting_midway()(EditorState { replay_depth: 0, ..begun }, command));
            if let Some(script) = state::script_of(begun, command) {
                let times = match count {
                    Some(n) => n as int,
                    None => 1,
                };
                lemma_midway_backtracks_in(
                    EditorState { replay_depth: 1, ..begun },
                    script,
                    times,
                    0,
                    1,
                );
            }
        }
    }
}

/// Under the default scheme typing steps back in the history only when no change is
/// open. A replay can do otherwise: a macro that changes the text and then undoes, or
/// `.` where a change among its keys misses and a `u` meant as text undoes instead.
pub proof fn typing_undoes_no_open_change(s: EditorState, keys: Seq<Key>, i: int)
    requires
        orderly(s, 0),
        bracketed(s),
        0 <= i <= keys.len(),
        !state::any_meets(s, keys, i, 0, backtracking()),
    ensures
        !state::any_meets(s, keys, i, 0, state::reverting_midway()),
    decreases keys.len() - i,
{
    if i < keys.len() {
        lemma_typing_is_not_midway(s, keys[i]);
        lemma_orderly_handled(s, keys[i], 0);
        lemma_bracketed(s, keys[i]);
        typing_undoes_no_open_change(state::handled(s, keys[i], 0).state, keys, i + 1);
    }
}

/// Commands that play a macro, and those that repeat a change over a selection or one
/// that can miss what it acts on.
pub open spec fn straying() -> Property {
    |s: EditorState, command: Command<Seq<char>>|
        {
            ||| command is PlayMacro
            ||| command is Repeat && !(s.mode == Mode::Normal && dot::assured(
                Mode::Normal,
                PendingState::fresh(),
                s.last_change,
                0,
            ))
        }
}

/// Replaying sober keys that cannot miss undoes nothing, however often.
proof fn lemma_assured_replay(s: EditorState, keys: Seq<Key>, times: int, i: int)
    requires
        s.keymap == keymap::vim_state(),
        s.mode is Visual ==> s.anchor is Some,
        0 <= i <= keys.len(),
        keys.len() > 0,
        dot::sober(s.mode, s.pending, keys, i),
        dot::assured(s.mode, s.pending, keys, i),
        arrives(s.mode, s.pending, keys, i) == (Mode::Normal, PendingState::fresh()),
        replayable(keys),
        dot::assured(Mode::Normal, PendingState::fresh(), keys, 0),
        whereto(keys) == (Mode::Normal, PendingState::fresh()),
    ensures
        !state::replays_any(s, keys, times, i, 1, backtracking()),
    decreases
            if times > 0 {
                times
            } else {
                0
            },
            keys.len() - i,
{
    if times > 0 {
        if i < keys.len() {
            assert(dot::passes(s.mode, s.pending, keys[i]));
            dot::a_passing_key_undoes_nothing(s, keys[i], 1);
            lemma_backtracks_is_midway(s, keys[i]);
            dot::lemma_step(s, keys[i], 1);
            lemma_assured_replay(state::handled(s, keys[i], 1).state, keys, times, i + 1);
        } else {
            lemma_assured_replay(s, keys, times - 1, 0);
        }
    }
}

/// A replayed key that replays nothing backtracks only where it undoes with changes
/// open.
proof fn lemma_backtracks_is_midway(s: EditorState, key: Key)
    requires
        !state::meets(s, key, 1, state::reverting_midway()),
        s.pending.fed(key, s.mode, s.keymap).1 matches Outcome::Command { command, .. }
            ==> !state::replays(command),
    ensures
        !state::meets(s, key, 1, backtracking()),
{
    reveal(EditorState::heard);
    let h = s.heard(key);
    let (pending, outcome) = h.pending.fed(key, h.mode, h.keymap);
    let q = EditorState { pending, ..h };
    if let Outcome::Command { command, count, .. } = outcome {
        let begun = EditorState { history: q.history.begun(Some(q.cursor as usize)), ..q };
        assert(!state::reverting_midway()(EditorState { replay_depth: 1, ..begun }, command));
    }
}

/// A typed key that does not stray undoes no change that is open.
proof fn lemma_no_straying(s: EditorState, key: Key)
    requires
        tame(s),
        !state::meets(s, key, 0, straying()),
    ensures
        !state::meets(s, key, 0, backtracking()),
{
    if !state::stops_recording(s, key, 0) {
        reveal(EditorState::heard);
        pending::the_parser_always_resets(s.pending, key, s.mode, s.keymap);
        let h = s.heard(key);
        let (pending, outcome) = h.pending.fed(key, h.mode, h.keymap);
        let q = EditorState { pending, ..h };
        if let Outcome::Command { command, count, .. } = outcome {
            let begun = EditorState { history: q.history.begun(Some(q.cursor as usize)), ..q };
            assert(!straying()(EditorState { replay_depth: 0, ..begun }, command));
            assert(!backtracking()(EditorState { replay_depth: 0, ..begun }, command));
            if let Some(script) = state::script_of(begun, command) {
                let times = match count {
                    Some(n) => n as int,
                    None => 1,
                };
                lemma_assured_replay(
                    EditorState { replay_depth: 1, ..begun },
                    script,
                    times,
                    0,
                );
            }
            assert(!state::runs_any(begun, command, count, 0, backtracking()));
        }
    }
}

/// Under the default scheme keys that play no macro undo no change that is open, as
/// long as each `.` among them repeats a change that cannot miss, in normal mode, and no
/// wayward command runs.
pub proof fn keys_that_play_no_macro_do_not_backtrack(s: EditorState, keys: Seq<Key>, i: int)
    requires
        tame(s),
        0 <= i <= keys.len(),
        !state::any_meets(s, keys, i, 0, straying()),
        !state::any_meets(s, keys, i, 0, wayward()),
    ensures
        !state::any_meets(s, keys, i, 0, backtracking()),
    decreases keys.len() - i,
{
    if i < keys.len() {
        lemma_no_straying(s, keys[i]);
        lemma_handled(s, keys[i], 0);
        keys_that_play_no_macro_do_not_backtrack(
            state::handled(s, keys[i], 0).state,
            keys,
            i + 1,
        );
    }
}

/// Whether, once the editor is in normal mode with nothing pending, `u` pressed as often
/// as the history is deep gives `origin`, and `<C-r>` pressed as often the text again.
pub open spec fn can_be_taken_back(s: EditorState, origin: Seq<u8>) -> bool {
    s.mode == Mode::Normal && s.pending == PendingState::fresh() ==> ({
        let n = s.history.cursor as nat;
        let back = promises::pressed(s, key::plain('u'), n);
        &&& back.text == origin
        &&& promises::pressed(back, promises::redo_key(), n).text == s.text
    })
}

/// Under the default scheme undo keys lead back to where the history began, and redo
/// keys forward again, from any sound editor whose history has seen every change.
pub proof fn undo_keys_take_back(s: EditorState)
    requires
        s.wf(),
        orderly(s, 0),
        s.in_step(),
    ensures
        can_be_taken_back(s, s.origin()),
{
    if s.mode == Mode::Normal && s.pending == PendingState::fresh() {
        promises::undo_keys_reach_the_origin(s);
        promises::redo_keys_retrace_undo(s, s.history.cursor as nat);
    }
}

} // verus!
