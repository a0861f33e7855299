//! What one key does, seen from outside: the state before it, the state after it.
//!
//! The laws of the commands are stated of keys, so that they speak of everything that
//! lies between a key and its outcome.

use vstd::prelude::*;

use crate::command::{Command, Mode};
use crate::effect::Effect;
use crate::grapheme::Bound;
use crate::key::Key;
use crate::pending;
use crate::pending::Outcome;
use crate::state;
use crate::state::{EditorState, Turn};

verus! {

/// Whether `key` completes `command` with `count`.
pub open spec fn completes(
    s: EditorState,
    key: Key,
    command: Command<Seq<char>>,
    count: Option<usize>,
) -> bool {
    &&& !state::stops_recording(s, key, 0)
    &&& s.pending.fed(key, s.mode, s.keymap).1 == (Outcome::Command {
        command,
        count,
        keys: s.pending.keys.push(key),
    })
}

/// The editor after `key`.
#[verifier::opaque]
pub open spec fn after(s: EditorState, key: Key) -> EditorState {
    state::handled(s, key, 0).state
}

/// What the host is told of `key`.
#[verifier::opaque]
pub open spec fn told(s: EditorState, key: Key) -> Seq<Effect> {
    state::handled(s, key, 0).effects
}

/// How often a command with `count` is to be done.
pub open spec fn times(count: Option<usize>) -> int {
    match count {
        Some(n) => n as int,
        None => 1,
    }
}

/// Where the cursor may rest in `mode`: past the last character of a row only where
/// text is typed.
pub open spec fn resting(mode: Mode) -> Bound {
    if mode == Mode::Insert || mode == Mode::Replace {
        Bound::PastEnd
    } else {
        Bound::OnChar
    }
}

/// How many of the integers from `lo` up to `hi` satisfy `f`.
pub open spec fn tally(f: spec_fn(int) -> bool, lo: int, hi: int) -> int
    decreases hi - lo,
{
    if lo >= hi {
        0
    } else {
        tally(f, lo, hi - 1) + if f(hi - 1) {
            1int
        } else {
            0int
        }
    }
}

/// A tally is the sum of the tallies of its parts.
pub proof fn lemma_tally_split(f: spec_fn(int) -> bool, lo: int, mid: int, hi: int)
    requires
        lo <= mid <= hi,
    ensures
        tally(f, lo, hi) == tally(f, lo, mid) + tally(f, mid, hi),
        0 <= tally(f, lo, hi) <= hi - lo,
    decreases hi - lo,
{
    if mid < hi {
        lemma_tally_split(f, lo, mid, hi - 1);
    } else if lo < hi {
        lemma_tally_split(f, lo, hi - 1, hi - 1);
    }
}

/// A tally around one place.
pub proof fn lemma_tally_at(f: spec_fn(int) -> bool, lo: int, at: int, hi: int)
    requires
        lo <= at < hi,
    ensures
        tally(f, lo, hi) == tally(f, lo, at) + tally(f, at + 1, hi) + if f(at) {
            1int
        } else {
            0int
        },
{
    lemma_tally_split(f, lo, at, hi);
    lemma_tally_split(f, at, at + 1, hi);
    assert(tally(f, at, at) == 0);
}

/// Where nothing satisfies `f`, the tally is nought.
pub proof fn lemma_tally_none(f: spec_fn(int) -> bool, lo: int, hi: int)
    requires
        forall|j: int| lo <= j < hi ==> !#[trigger] f(j),
    ensures
        tally(f, lo, hi) == 0,
    decreases hi - lo,
{
    if lo < hi {
        lemma_tally_none(f, lo, hi - 1);
    }
}

/// The turn in which the command that `key` completes runs.
pub open spec fn opening(s: EditorState, key: Key) -> Turn {
    let h = s.heard(key);
    let p = EditorState { pending: s.pending.fed(key, s.mode, s.keymap).0, ..h };
    Turn {
        state: EditorState { history: p.history.begun(Some(p.cursor as usize)), ..p },
        effects: Seq::empty(),
    }
}

/// Whether two states look the same from outside but for the history, the `[` and `]`
/// marks, and the keys remembered.
pub open spec fn same_face(s: EditorState, t: EditorState) -> bool {
    &&& t.text == s.text
    &&& t.cursor == s.cursor
    &&& t.mode == s.mode
    &&& t.anchor == s.anchor
    &&& t.sticky == s.sticky
    &&& t.register == s.register
    &&& t.jumps == s.jumps
    &&& t.jump_at == s.jump_at
    &&& t.last_find == s.last_find
    &&& t.last_search == s.last_search
    &&& t.viewport == s.viewport
    &&& t.indent == s.indent
    &&& t.keymap == s.keymap
}

/// A key that completes a command which replays nothing does what the command does.
pub proof fn lemma_done(
    s: EditorState,
    key: Key,
    command: Command<Seq<char>>,
    count: Option<usize>,
)
    requires
        completes(s, key, command, count),
        !state::replays(command),
    ensures
        same_face(s, opening(s, key).state),
        opening(s, key).state.marks == s.marks,
        opening(s, key).effects == Seq::<Effect>::empty(),
        same_face(opening(s, key).acted(command, count).state, after(s, key)),
        told(s, key) == opening(s, key).acted(command, count).effects,
        forall|i: int|
            0 <= i < 31 && i != 28 && i != 29 && opening(s, key).acted(
                command,
                count,
            ).state.marks.len() == 31 ==> #[trigger] after(s, key).marks[i] == opening(
                s,
                key,
            ).acted(command, count).state.marks[i],
{
    pending::the_parser_always_resets(s.pending, key, s.mode, s.keymap);
    reveal(after);
    reveal(told);
    reveal(EditorState::heard);
    reveal(EditorState::change_marked);
    reveal(EditorState::shaped);
    reveal(EditorState::noted);
}

} // verus!
