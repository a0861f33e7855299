//! Which keys the default scheme binds to what.

use vstd::prelude::*;

use crate::command::{
    AwaitChar, Command, InsertAt, Motion, ObjectScope, Operator, Scroll, Target, TextObject,
    VisualKind,
};
use crate::key;
use crate::key::{Key, KeyCode, Mods};
use crate::keymap;
use crate::keymap::{Binding, KeymapState, Layer};

verus! {

/// What a character stands for on its own in normal mode.
pub open spec fn letter(c: char) -> Option<Binding<Seq<char>>> {
    match c {
        'h' => Some(Binding::Motion(Motion::Left)),
        'l' | ' ' => Some(Binding::Motion(Motion::Right)),
        'j' => Some(Binding::Motion(Motion::Down)),
        'k' => Some(Binding::Motion(Motion::Up)),
        '0' => Some(Binding::Motion(Motion::FirstColumn)),
        '^' => Some(Binding::Motion(Motion::FirstNonBlank)),
        '$' => Some(Binding::Motion(Motion::LastColumn)),
        'w' => Some(Binding::Motion(Motion::WordForward { big: false })),
        'W' => Some(Binding::Motion(Motion::WordForward { big: true })),
        'b' => Some(Binding::Motion(Motion::WordBackward { big: false })),
        'B' => Some(Binding::Motion(Motion::WordBackward { big: true })),
        'e' => Some(Binding::Motion(Motion::WordEnd { big: false })),
        'E' => Some(Binding::Motion(Motion::WordEnd { big: true })),
        'G' => Some(Binding::Motion(Motion::GotoRow)),
        '%' => Some(Binding::Motion(Motion::MatchPair)),
        'H' => Some(Binding::Motion(Motion::ScreenTop)),
        'M' => Some(Binding::Motion(Motion::ScreenMiddle)),
        'L' => Some(Binding::Motion(Motion::ScreenBottom)),
        ';' => Some(Binding::Motion(Motion::RepeatFind { reverse: false })),
        ',' => Some(Binding::Motion(Motion::RepeatFind { reverse: true })),
        'n' => Some(Binding::Motion(Motion::RepeatSearch { reverse: false })),
        'N' => Some(Binding::Motion(Motion::RepeatSearch { reverse: true })),
        '/' => Some(Binding::Search { backward: false }),
        '?' => Some(Binding::Search { backward: true }),
        'f' => Some(Binding::Await(AwaitChar::Find { backward: false, till: false })),
        'F' => Some(Binding::Await(AwaitChar::Find { backward: true, till: false })),
        't' => Some(Binding::Await(AwaitChar::Find { backward: false, till: true })),
        'T' => Some(Binding::Await(AwaitChar::Find { backward: true, till: true })),
        'm' => Some(Binding::Await(AwaitChar::SetMark)),
        '`' => Some(Binding::Await(AwaitChar::GotoMark { exact: true })),
        '\'' => Some(Binding::Await(AwaitChar::GotoMark { exact: false })),
        'r' => Some(Binding::Await(AwaitChar::ReplaceChar)),
        'q' => Some(Binding::Await(AwaitChar::RecordMacro)),
        '@' => Some(Binding::Await(AwaitChar::PlayMacro)),
        'd' => Some(Binding::Operator(Operator::Delete)),
        'c' => Some(Binding::Operator(Operator::Change)),
        'y' => Some(Binding::Operator(Operator::Yank)),
        '>' => Some(Binding::Operator(Operator::ShiftRight)),
        '<' => Some(Binding::Operator(Operator::ShiftLeft)),
        'D' => Some(
            Binding::Command(Command::Operate { operator: Operator::Delete, target: Target::Motion(Motion::LastColumn) }),
        ),
        'C' => Some(
            Binding::Command(Command::Operate { operator: Operator::Change, target: Target::Motion(Motion::LastColumn) }),
        ),
        'i' => Some(Binding::Command(Command::EnterInsert(InsertAt::Cursor))),
        'a' => Some(Binding::Command(Command::EnterInsert(InsertAt::After))),
        'I' => Some(Binding::Command(Command::EnterInsert(InsertAt::FirstNonBlank))),
        'A' => Some(Binding::Command(Command::EnterInsert(InsertAt::EndOfRow))),
        'o' => Some(Binding::Command(Command::EnterInsert(InsertAt::RowBelow))),
        'O' => Some(Binding::Command(Command::EnterInsert(InsertAt::RowAbove))),
        'v' => Some(Binding::Command(Command::EnterVisual(VisualKind::Char))),
        'V' => Some(Binding::Command(Command::EnterVisual(VisualKind::Line))),
        'R' => Some(Binding::Command(Command::EnterReplace)),
        'x' => Some(Binding::Command(Command::DeleteChar { before: false })),
        'X' => Some(Binding::Command(Command::DeleteChar { before: true })),
        'J' => Some(Binding::Command(Command::JoinRows)),
        'p' => Some(Binding::Command(Command::Put { before: false })),
        'P' => Some(Binding::Command(Command::Put { before: true })),
        '~' => Some(Binding::Command(Command::SwapCase)),
        'u' => Some(Binding::Command(Command::Undo)),
        '.' => Some(Binding::Command(Command::Repeat)),
        ':' => Some(Binding::Command(Command::CommandPrompt)),
        _ => None,
    }
}

/// What a character stands for only while an operator waits for its target.
pub open spec fn letter_of_operator(c: char) -> Option<Binding<Seq<char>>> {
    match c {
        'u' => Some(Binding::Operator(Operator::Lower)),
        'U' => Some(Binding::Operator(Operator::Upper)),
        '~' => Some(Binding::Operator(Operator::SwapCase)),
        'i' => Some(Binding::ObjectScope(ObjectScope::Inner)),
        'a' => Some(Binding::ObjectScope(ObjectScope::Around)),
        _ => None,
    }
}

/// What a character stands for only over a selection.
pub open spec fn letter_of_selection(c: char) -> Option<Binding<Seq<char>>> {
    match c {
        'i' => Some(Binding::ObjectScope(ObjectScope::Inner)),
        'a' => Some(Binding::ObjectScope(ObjectScope::Around)),
        'x' => Some(Binding::Operator(Operator::Delete)),
        's' => Some(Binding::Operator(Operator::Change)),
        'u' => Some(Binding::Operator(Operator::Lower)),
        'U' => Some(Binding::Operator(Operator::Upper)),
        '~' => Some(Binding::Operator(Operator::SwapCase)),
        'v' => Some(Binding::Command(Command::EnterVisual(VisualKind::Char))),
        'V' => Some(Binding::Command(Command::EnterVisual(VisualKind::Line))),
        _ => None,
    }
}

/// What a character stands for with control held, in normal mode.
pub open spec fn control(c: char) -> Option<Binding<Seq<char>>> {
    match c {
        'r' => Some(Binding::Command(Command::Redo)),
        'o' => Some(Binding::Command(Command::JumpBack)),
        'i' => Some(Binding::Command(Command::JumpForward)),
        'd' => Some(Binding::Command(Command::Scroll(Scroll::HalfPageDown))),
        'u' => Some(Binding::Command(Command::Scroll(Scroll::HalfPageUp))),
        'f' => Some(Binding::Command(Command::Scroll(Scroll::PageDown))),
        'b' => Some(Binding::Command(Command::Scroll(Scroll::PageUp))),
        _ => None,
    }
}

/// What a character stands for with control held, while text is typed.
pub open spec fn control_of_insert(c: char) -> Option<Binding<Seq<char>>> {
    match c {
        'c' => Some(Binding::Command(Command::EnterNormal)),
        'w' => Some(Binding::Command(Command::DeleteWordBack)),
        _ => None,
    }
}

/// What a key without a character stands for in normal mode.
pub open spec fn special(code: KeyCode) -> Option<Binding<Seq<char>>> {
    match code {
        KeyCode::Left => Some(Binding::Motion(Motion::Left)),
        KeyCode::Right => Some(Binding::Motion(Motion::Right)),
        KeyCode::Down => Some(Binding::Motion(Motion::Down)),
        KeyCode::Up => Some(Binding::Motion(Motion::Up)),
        KeyCode::Home => Some(Binding::Motion(Motion::FirstColumn)),
        KeyCode::End => Some(Binding::Motion(Motion::LastColumn)),
        KeyCode::Esc => Some(Binding::Command(Command::EnterNormal)),
        KeyCode::Delete => Some(Binding::Command(Command::DeleteChar { before: false })),
        _ => None,
    }
}

/// What a key without a character stands for while text is typed.
pub open spec fn special_of_insert(code: KeyCode) -> Option<Binding<Seq<char>>> {
    match code {
        KeyCode::Esc => Some(Binding::Command(Command::EnterNormal)),
        KeyCode::Enter => Some(Binding::Command(Command::InsertNewline)),
        KeyCode::Backspace => Some(Binding::Command(Command::DeleteBack)),
        KeyCode::Tab => Some(Binding::Command(Command::InsertText('\t'))),
        KeyCode::Left => Some(Binding::Command(Command::Move(Motion::Left))),
        KeyCode::Right => Some(Binding::Command(Command::Move(Motion::Right))),
        KeyCode::Up => Some(Binding::Command(Command::Move(Motion::Up))),
        KeyCode::Down => Some(Binding::Command(Command::Move(Motion::Down))),
        _ => None,
    }
}

/// What two characters stand for one after the other, in normal mode.
pub open spec fn pair(a: char, b: char) -> Option<Binding<Seq<char>>> {
    match (a, b) {
        ('g', 'g') => Some(Binding::Motion(Motion::GotoFirstRow)),
        ('g', 'u') => Some(Binding::Operator(Operator::Lower)),
        ('g', 'U') => Some(Binding::Operator(Operator::Upper)),
        ('g', '~') => Some(Binding::Operator(Operator::SwapCase)),
        ('z', 'z') => Some(Binding::Command(Command::Scroll(Scroll::Center))),
        ('z', 't') => Some(Binding::Command(Command::Scroll(Scroll::Top))),
        ('z', 'b') => Some(Binding::Command(Command::Scroll(Scroll::Bottom))),
        _ => None,
    }
}

/// What a path of keys stands for in a layer.
pub open spec fn meaning(layer: Layer, path: Seq<Key>) -> Option<Binding<Seq<char>>> {
    if path.len() == 1 {
        let key = path[0];
        match key.code {
            KeyCode::Char(c) => if key.mods == Mods::NONE {
                match layer {
                    Layer::Normal => letter(c),
                    Layer::Operator => letter_of_operator(c),
                    Layer::Visual => letter_of_selection(c),
                    Layer::Insert => None,
                }
            } else if key.mods == Mods::CTRL {
                match layer {
                    Layer::Normal => control(c),
                    Layer::Insert => control_of_insert(c),
                    _ => None,
                }
            } else {
                None
            },
            code => if key.mods == Mods::NONE {
                match layer {
                    Layer::Normal => special(code),
                    Layer::Insert => special_of_insert(code),
                    _ => None,
                }
            } else {
                None
            },
        }
    } else if path.len() == 2 && layer == Layer::Normal && path[0].mods == Mods::NONE
        && path[1].mods == Mods::NONE {
        match (path[0].code, path[1].code) {
            (KeyCode::Char(a), KeyCode::Char(b)) => pair(a, b),
            _ => None,
        }
    } else {
        None
    }
}

/// Whether every path that is bound is bound to what it stands for.
#[verifier::opaque]
pub open spec fn true_to_meaning(m: KeymapState) -> bool {
    forall|layer: Layer, path: Seq<Key>| #[trigger]
        m.layer(layer).dom().contains(path) ==> meaning(layer, path) == Some(m.layer(layer)[path])
}

proof fn lemma_bound(
    m: KeymapState,
    layer: Layer,
    sequence: Seq<Key>,
    binding: Binding<Seq<char>>,
)
    requires
        true_to_meaning(m),
        meaning(layer, sequence) == Some(binding),
    ensures
        true_to_meaning(m.bound(layer, sequence, binding)),
{
    reveal(true_to_meaning);
    let n = m.bound(layer, sequence, binding);
    assert forall|at: Layer, path: Seq<Key>| #[trigger]
        n.layer(at).dom().contains(path) implies meaning(at, path) == Some(n.layer(at)[path]) by {
        if at != layer {
            assert(m.layer(at).dom().contains(path));
        } else if path != sequence {
            assert(m.layer(at).dom().contains(path));
        }
    }
}

proof fn lemma_any_bound()
    ensures
        forall|
            m: KeymapState,
            layer: Layer,
            sequence: Seq<Key>,
            binding: Binding<Seq<char>>,
        |
            true_to_meaning(m) && meaning(layer, sequence) == Some(binding) ==> true_to_meaning(
                #[trigger] m.bound(layer, sequence, binding),
            ),
{
    assert forall|
        m: KeymapState,
        layer: Layer,
        sequence: Seq<Key>,
        binding: Binding<Seq<char>>,
    |
        true_to_meaning(m) && meaning(layer, sequence) == Some(binding) implies true_to_meaning(
        #[trigger] m.bound(layer, sequence, binding),
    ) by {
        lemma_bound(m, layer, sequence, binding);
    }
}

proof fn lemma_motions(m: KeymapState)
    requires
        true_to_meaning(m),
    ensures
        true_to_meaning(keymap::vim_motions(m)),
        keymap::vim_motions(m).objects == m.objects,
{
    lemma_any_bound();
}

proof fn lemma_jumps(m: KeymapState)
    requires
        true_to_meaning(m),
    ensures
        true_to_meaning(keymap::vim_jumps(m)),
        keymap::vim_jumps(m).objects == m.objects,
{
    lemma_any_bound();
}

proof fn lemma_awaits(m: KeymapState)
    requires
        true_to_meaning(m),
    ensures
        true_to_meaning(keymap::vim_awaits(m)),
        keymap::vim_awaits(m).objects == m.objects,
{
    lemma_any_bound();
}

proof fn lemma_operators(m: KeymapState)
    requires
        true_to_meaning(m),
    ensures
        true_to_meaning(keymap::vim_operators(m)),
        keymap::vim_operators(m).objects == m.objects,
{
    lemma_any_bound();
}

proof fn lemma_modes(m: KeymapState)
    requires
        true_to_meaning(m),
    ensures
        true_to_meaning(keymap::vim_modes(m)),
        keymap::vim_modes(m).objects == m.objects,
{
    lemma_any_bound();
}

proof fn lemma_edits(m: KeymapState)
    requires
        true_to_meaning(m),
    ensures
        true_to_meaning(keymap::vim_edits(m)),
        keymap::vim_edits(m).objects == m.objects,
{
    lemma_any_bound();
}

proof fn lemma_scrolls(m: KeymapState)
    requires
        true_to_meaning(m),
    ensures
        true_to_meaning(keymap::vim_scrolls(m)),
        keymap::vim_scrolls(m).objects == m.objects,
{
    lemma_any_bound();
}

proof fn lemma_selections(m: KeymapState)
    requires
        true_to_meaning(m),
    ensures
        true_to_meaning(keymap::vim_selections(m)),
        keymap::vim_selections(m).objects == m.objects,
{
    lemma_any_bound();
}

proof fn lemma_inserts(m: KeymapState)
    requires
        true_to_meaning(m),
    ensures
        true_to_meaning(keymap::vim_inserts(m)),
        keymap::vim_inserts(m).objects == m.objects,
{
    lemma_any_bound();
}

/// In the default scheme every key and every pair of keys that is bound is bound to what
/// it stands for, in each layer.
pub proof fn the_default_scheme_is_true_to_meaning()
    ensures
        true_to_meaning(keymap::vim_state()),
{
    reveal(keymap::vim_state);
    let m = KeymapState::empty();
    assert(true_to_meaning(m)) by {
        reveal(true_to_meaning);
    }
    lemma_motions(m);
    let m = keymap::vim_motions(m);
    lemma_jumps(m);
    let m = keymap::vim_jumps(m);
    lemma_awaits(m);
    let m = keymap::vim_awaits(m);
    lemma_operators(m);
    let m = keymap::vim_operators(m);
    lemma_modes(m);
    let m = keymap::vim_modes(m);
    lemma_edits(m);
    let m = keymap::vim_edits(m);
    lemma_scrolls(m);
    let m = keymap::vim_scrolls(m);
    lemma_selections(m);
    let m = keymap::vim_selections(m);
    lemma_inserts(m);
    let m = keymap::vim_inserts(m);
    let n = keymap::vim_objects(m);
    assert(n == (KeymapState { objects: n.objects, ..m }));
    assert(true_to_meaning(n)) by {
        reveal(true_to_meaning);
        assert forall|layer: Layer, path: Seq<Key>| #[trigger]
            n.layer(layer).dom().contains(path) implies meaning(layer, path) == Some(
            n.layer(layer)[path],
        ) by {
            assert(m.layer(layer).dom().contains(path));
        }
    }
}

/// The text object that a character stands for after `i` or `a`.
pub open spec fn object_letter(c: char) -> Option<TextObject> {
    match c {
        'w' => Some(TextObject::Word { big: false }),
        'W' => Some(TextObject::Word { big: true }),
        'p' => Some(TextObject::Paragraph),
        '(' | ')' | 'b' => Some(TextObject::Delimited { open: '(', close: ')' }),
        '{' | '}' | 'B' => Some(TextObject::Delimited { open: '{', close: '}' }),
        '[' | ']' => Some(TextObject::Delimited { open: '[', close: ']' }),
        '<' | '>' => Some(TextObject::Delimited { open: '<', close: '>' }),
        '"' | '\'' | '`' => Some(TextObject::Quoted(c)),
        _ => None,
    }
}

/// In the default scheme each character stands for its text object, and no other for one.
pub proof fn the_default_scheme_knows_its_objects(c: char)
    ensures
        keymap::vim_state().object_of(key::plain(c)) == object_letter(c),
{
    reveal(keymap::vim_state);
    let m = KeymapState::empty();
    assert(true_to_meaning(m)) by {
        reveal(true_to_meaning);
    }
    lemma_motions(m);
    let m = keymap::vim_motions(m);
    lemma_jumps(m);
    let m = keymap::vim_jumps(m);
    lemma_awaits(m);
    let m = keymap::vim_awaits(m);
    lemma_operators(m);
    let m = keymap::vim_operators(m);
    lemma_modes(m);
    let m = keymap::vim_modes(m);
    lemma_edits(m);
    let m = keymap::vim_edits(m);
    lemma_scrolls(m);
    let m = keymap::vim_scrolls(m);
    lemma_selections(m);
    let m = keymap::vim_selections(m);
    lemma_inserts(m);
    let m = keymap::vim_inserts(m);
    assert(m.objects == KeymapState::empty().objects);
}

} // verus!
