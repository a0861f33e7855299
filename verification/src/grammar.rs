//! What the grammar of keys promises: counts, operators and their targets.

use vstd::prelude::*;

use crate::command::{AwaitChar, Command, Find, Mode, Motion, ObjectScope, Operator, Target};
use crate::key::{Key, KeyCode, Mods};
use crate::keymap::{Binding, KeymapState, Layer, Walk};
use crate::pending::{Outcome, PendingState};

verus! {

/// The largest number a count can be.
pub open spec fn counted(n: int) -> int {
    if n > usize::MAX {
        usize::MAX as int
    } else {
        n
    }
}

/// Whether `r` is what the counts before and after an operator come to: their product,
/// or the one that was given, or none.
pub open spec fn product(before: Option<usize>, after: Option<usize>, r: Option<usize>) -> bool {
    match (before, after) {
        (None, None) => r is None,
        (Some(n), Some(m)) => r is Some && r->0 == counted(n * m),
        _ => r == before || r == after && before is None,
    }
}

/// A command comes with the product of the counts typed before it and after its operator.
pub proof fn counts_multiply(p: PendingState, key: Key, mode: Mode, keymap: KeymapState)
    ensures
        p.fed(key, mode, keymap).1 matches Outcome::Command { count, .. } ==> {
            &&& product(p.count_before, p.count_after, count)
            &&& p.count_before is Some && p.count_after is None ==> count == p.count_before
            &&& p.count_before is None && p.count_after is Some ==> count == p.count_after
        },
{
    reveal(PendingState::fed);
}

/// The count that a digit goes to: the one after the operator, once there is one.
pub open spec fn running(p: PendingState) -> Option<usize> {
    match p.operator {
        Some(_) => p.count_after,
        None => p.count_before,
    }
}

/// Whether a key path is to begin.
pub open spec fn between_paths(p: PendingState) -> bool {
    &&& p.awaiting is None
    &&& p.search is None
    &&& p.scope is None
    &&& p.path_start == p.keys.len()
}

/// A digit is written behind the count before it, and is no count where it is a nought
/// with nothing before it. What else is pending stays.
pub proof fn a_digit_is_written_behind_the_count(
    p: PendingState,
    key: Key,
    mode: Mode,
    keymap: KeymapState,
)
    requires
        mode.commands(),
        between_paths(p),
        key.digit() is Some,
        key.code != KeyCode::Esc,
        key.digit()->0 != 0 || running(p) is Some,
    ensures
        ({
            let (q, outcome) = p.fed(key, mode, keymap);
            let sofar = match running(p) {
                Some(n) => n as int,
                None => 0,
            };
            &&& outcome == Outcome::Pending
            &&& running(q) is Some
            &&& running(q)->0 == counted(sofar * 10 + key.digit()->0)
            &&& q.operator == p.operator
            &&& p.operator is Some ==> q.count_before == p.count_before
            &&& p.operator is None ==> q.count_after == p.count_after
            &&& between_paths(q)
        }),
{
    reveal(PendingState::fed);
}

/// The layer in which keys are looked up: while an operator waits for its target, its own.
pub open spec fn looked_up(p: PendingState, mode: Mode) -> Layer {
    match (p.operator, mode) {
        (Some(_), _) => Layer::Operator,
        (None, Mode::Visual(_)) => Layer::Visual,
        _ => Layer::Normal,
    }
}

/// Whether `key` is looked up: it is no digit of a count, and nothing waits for it but the
/// keys it ends.
pub open spec fn looks_up(p: PendingState, key: Key, mode: Mode) -> bool {
    &&& mode is Normal || mode is Visual
    &&& p.awaiting is None
    &&& p.search is None
    &&& p.scope is None
    &&& !(key.code == KeyCode::Esc && !p.idle())
    &&& p.path_start < p.keys.len() || key.digit() is None || (key.digit()->0 == 0 && running(p)
        is None)
    &&& 0 <= p.path_start <= p.keys.len()
}

/// Whether the keys of the path that `key` ends lead to `binding`.
pub open spec fn leads(
    p: PendingState,
    key: Key,
    mode: Mode,
    keymap: KeymapState,
    binding: Binding<Seq<char>>,
) -> bool {
    looks_up(p, key, mode) && keymap.walked(
        looked_up(p, mode),
        p.keys.push(key).skip(p.path_start),
    ) == Walk::Bound(binding)
}

/// Whether the key completes `command`.
pub open spec fn gives(
    p: PendingState,
    key: Key,
    mode: Mode,
    keymap: KeymapState,
    command: Command<Seq<char>>,
) -> bool {
    p.fed(key, mode, keymap).1 matches Outcome::Command { command: given, .. } && given == command
}

/// Whether the key is refused.
pub open spec fn refused(p: PendingState, key: Key, mode: Mode, keymap: KeymapState) -> bool {
    p.fed(key, mode, keymap).1 is Rejected
}

/// A motion moves, or is the target of the operator that waits for one.
pub proof fn a_motion_moves_or_is_a_target(
    p: PendingState,
    key: Key,
    mode: Mode,
    keymap: KeymapState,
    motion: Motion<Seq<char>>,
)
    requires
        leads(p, key, mode, keymap, Binding::Motion(motion)),
    ensures
        p.operator is None ==> gives(p, key, mode, keymap, Command::Move(motion)),
        p.operator matches Some(operator) ==> gives(
            p,
            key,
            mode,
            keymap,
            Command::Operate { operator, target: Target::Motion(motion) },
        ),
{
    reveal(PendingState::fed);
}

/// An operator acts at once on a selection. Elsewhere it waits for a target, keeping the
/// count typed before it; typed again it acts on the row, and another one is refused.
pub proof fn an_operator_waits_or_is_doubled(
    p: PendingState,
    key: Key,
    mode: Mode,
    keymap: KeymapState,
    operator: Operator,
)
    requires
        leads(p, key, mode, keymap, Binding::Operator(operator)),
    ensures
        mode is Visual ==> gives(
            p,
            key,
            mode,
            keymap,
            Command::Operate { operator, target: Target::Selection },
        ),
        mode is Normal && p.operator is None ==> {
            let (q, outcome) = p.fed(key, mode, keymap);
            &&& outcome == Outcome::Pending
            &&& q.operator == Some(operator)
            &&& q.count_before == p.count_before
            &&& q.count_after == p.count_after
            &&& q.awaiting is None && q.search is None && q.scope is None
            &&& q.path_start == q.keys.len()
        },
        mode is Normal && p.operator == Some(operator) ==> gives(
            p,
            key,
            mode,
            keymap,
            Command::Operate { operator, target: Target::CurrentRow },
        ),
        mode is Normal && p.operator is Some && p.operator != Some(operator) ==> refused(
            p,
            key,
            mode,
            keymap,
        ),
{
    reveal(PendingState::fed);
}

/// A key bound to a command gives it, unless an operator waits for a target.
pub proof fn a_command_is_no_target(
    p: PendingState,
    key: Key,
    mode: Mode,
    keymap: KeymapState,
    command: Command<Seq<char>>,
)
    requires
        leads(p, key, mode, keymap, Binding::Command(command)),
    ensures
        p.operator is None ==> gives(p, key, mode, keymap, command),
        p.operator is Some ==> refused(p, key, mode, keymap),
{
    reveal(PendingState::fed);
}

/// `i` and `a` wait for an object where it can be a target or a selection, and are refused
/// elsewhere; the object is then the target of the operator, or selected.
pub proof fn an_object_is_a_target_or_selected(
    p: PendingState,
    key: Key,
    object_key: Key,
    mode: Mode,
    keymap: KeymapState,
    scope: ObjectScope,
)
    requires
        leads(p, key, mode, keymap, Binding::ObjectScope(scope)),
        object_key.code != KeyCode::Esc,
    ensures
        p.operator is None && mode is Normal ==> refused(p, key, mode, keymap),
        p.operator is Some || mode is Visual ==> {
            let (q, outcome) = p.fed(key, mode, keymap);
            &&& outcome == Outcome::Pending
            &&& match keymap.object_of(object_key) {
                None => refused(q, object_key, mode, keymap),
                Some(object) => match p.operator {
                    Some(operator) => gives(
                        q,
                        object_key,
                        mode,
                        keymap,
                        Command::Operate { operator, target: Target::Object { scope, object } },
                    ),
                    None => gives(
                        q,
                        object_key,
                        mode,
                        keymap,
                        Command::SelectObject { scope, object },
                    ),
                },
            }
        },
{
    reveal(PendingState::fed);
}

/// What a binding that awaits a character makes of it.
pub open spec fn made_of(p: PendingState, awaiting: AwaitChar, c: char) -> Option<
    Command<Seq<char>>,
> {
    let alone = p.operator is None;
    let marked = 'a' <= c && c <= 'z';
    let motion = match awaiting {
        AwaitChar::Find { backward, till } => Some(
            Motion::Find(Find { target: c, backward, till }),
        ),
        AwaitChar::GotoMark { exact } => if marked || c == '\'' || c == '`' {
            Some(Motion::Mark { name: c, exact })
        } else {
            None
        },
        _ => None,
    };
    match motion {
        Some(motion) => Some(
            match p.operator {
                Some(operator) => Command::Operate { operator, target: Target::Motion(motion) },
                None => Command::Move(motion),
            },
        ),
        None => match awaiting {
            AwaitChar::ReplaceChar if alone => Some(Command::ReplaceChar(c)),
            AwaitChar::RecordMacro if alone => Some(Command::RecordMacro(c)),
            AwaitChar::PlayMacro if alone => Some(Command::PlayMacro(c)),
            AwaitChar::SetMark if alone && marked => Some(Command::SetMark(c)),
            _ => None,
        },
    }
}

/// A binding that awaits a character takes the next key for it, whatever that key is bound
/// to.
pub proof fn an_awaited_character_is_taken_as_it_is(
    p: PendingState,
    key: Key,
    next: Key,
    c: char,
    mode: Mode,
    keymap: KeymapState,
    awaiting: AwaitChar,
)
    requires
        leads(p, key, mode, keymap, Binding::Await(awaiting)),
        next.code != KeyCode::Esc,
        next.text() == Some(c),
    ensures
        ({
            let (q, outcome) = p.fed(key, mode, keymap);
            &&& outcome == Outcome::Pending
            &&& q.operator == p.operator
            &&& match made_of(p, awaiting, c) {
                Some(command) => gives(q, next, mode, keymap, command),
                None => refused(q, next, mode, keymap),
            }
        }),
{
    reveal(PendingState::fed);
}

/// A pattern is typed character by character up to `<CR>`, which searches for it in the
/// direction its key began with.
pub proof fn a_pattern_is_typed_up_to_its_end(
    p: PendingState,
    next: Key,
    mode: Mode,
    keymap: KeymapState,
    pattern: Seq<char>,
    backward: bool,
)
    requires
        mode is Normal || mode is Visual,
        p.awaiting is None,
        p.search == Some((pattern, backward)),
        next.code != KeyCode::Esc,
    ensures
        ({
            let (q, outcome) = p.fed(next, mode, keymap);
            match next.text() {
                Some(c) => outcome == Outcome::Pending && q.search == Some(
                    (pattern.push(c), backward),
                ) && q.operator == p.operator && q.awaiting is None,
                None => if next == (Key { code: KeyCode::Enter, mods: Mods::NONE }) {
                    match p.operator {
                        Some(operator) => gives(
                            p,
                            next,
                            mode,
                            keymap,
                            Command::Operate {
                                operator,
                                target: Target::Motion(Motion::Search { pattern, backward }),
                            },
                        ),
                        None => gives(
                            p,
                            next,
                            mode,
                            keymap,
                            Command::Move(Motion::Search { pattern, backward }),
                        ),
                    }
                } else {
                    refused(p, next, mode, keymap)
                },
            }
        }),
{
    reveal(PendingState::fed);
}

/// A key that leads to a search begins an empty pattern.
pub proof fn a_search_key_begins_a_pattern(
    p: PendingState,
    key: Key,
    mode: Mode,
    keymap: KeymapState,
    backward: bool,
)
    requires
        leads(p, key, mode, keymap, Binding::Search { backward }),
    ensures
        ({
            let (q, outcome) = p.fed(key, mode, keymap);
            &&& outcome == Outcome::Pending
            &&& q.search == Some((Seq::<char>::empty(), backward))
            &&& q.operator == p.operator
            &&& q.awaiting is None
        }),
{
    reveal(PendingState::fed);
}

/// In insert and replace mode a printable key that is bound to nothing types itself.
pub proof fn an_unbound_key_types_itself(
    p: PendingState,
    key: Key,
    c: char,
    mode: Mode,
    keymap: KeymapState,
)
    requires
        mode is Insert || mode is Replace,
        p.path_start == p.keys.len(),
        key.text() == Some(c),
        keymap.walked(Layer::Insert, seq![key]) is Unbound,
    ensures
        gives(p, key, mode, keymap, Command::InsertText(c)),
{
    reveal(PendingState::fed);
    assert(p.keys.push(key).skip(p.path_start) =~= seq![key]);
}

} // verus!
