//! The snapshot block of a case: all of an editor's state that its behaviour is
//! pinned by, and the effects that led there, as text.

use vstd::prelude::*;
use vstd::utf8::*;

use crate::command::{Mode, Scroll, VisualKind};
use crate::edit;
use crate::edit::Edit;
use crate::editor::Editor;
use crate::effect::Effect;
use crate::key;
use crate::key::render;
use crate::state;
use crate::state::EditorState;
use crate::strings;
use crate::strings::to_decimal;

verus! {

/// The name of a mode.
pub open spec fn mode_name(mode: Mode) -> Seq<char> {
    match mode {
        Mode::Normal => "Normal"@,
        Mode::Insert => "Insert"@,
        Mode::Replace => "Replace"@,
        Mode::Visual(VisualKind::Char) => "Visual(Char)"@,
        Mode::Visual(VisualKind::Line) => "Visual(Line)"@,
    }
}

/// The name of a mode.
pub fn name_mode(mode: Mode) -> (r: &'static str)
    ensures
        r@ == mode_name(mode),
{
    match mode {
        Mode::Normal => "Normal",
        Mode::Insert => "Insert",
        Mode::Replace => "Replace",
        Mode::Visual(VisualKind::Char) => "Visual(Char)",
        Mode::Visual(VisualKind::Line) => "Visual(Line)",
    }
}

/// The name of a scroll.
pub open spec fn scroll_name(scroll: Scroll) -> Seq<char> {
    match scroll {
        Scroll::HalfPageDown => "HalfPageDown"@,
        Scroll::HalfPageUp => "HalfPageUp"@,
        Scroll::PageDown => "PageDown"@,
        Scroll::PageUp => "PageUp"@,
        Scroll::Center => "Center"@,
        Scroll::Top => "Top"@,
        Scroll::Bottom => "Bottom"@,
    }
}

/// The name of a scroll.
pub fn name_scroll(scroll: Scroll) -> (r: &'static str)
    ensures
        r@ == scroll_name(scroll),
{
    match scroll {
        Scroll::HalfPageDown => "HalfPageDown",
        Scroll::HalfPageUp => "HalfPageUp",
        Scroll::PageDown => "PageDown",
        Scroll::PageUp => "PageUp",
        Scroll::Center => "Center",
        Scroll::Top => "Top",
        Scroll::Bottom => "Bottom",
    }
}

// ---------------------------------------------------------------------------
// effects
// ---------------------------------------------------------------------------

/// An edit: its bytes, then its positions.
pub open spec fn edit_line(e: Edit) -> Seq<char> {
    "edit "@ + strings::decimal(e.start_byte as int) + ".."@ + strings::decimal(
        e.old_end_byte as int,
    ) + " -> "@ + strings::decimal(e.new_end_byte as int) + "; ("@ + strings::decimal(
        e.start_point.row as int,
    ) + ","@ + strings::decimal(e.start_point.col as int) + ")..("@ + strings::decimal(
        e.old_end_point.row as int,
    ) + ","@ + strings::decimal(e.old_end_point.col as int) + ") -> ("@ + strings::decimal(
        e.new_end_point.row as int,
    ) + ","@ + strings::decimal(e.new_end_point.col as int) + ")"@
}

/// An effect, on one line.
pub open spec fn effect_line(effect: Effect) -> Seq<char> {
    match effect {
        Effect::Edit(e) => edit_line(e),
        Effect::ModeChanged(mode) => "mode "@ + mode_name(mode),
        Effect::Scroll(scroll) => "scroll "@ + scroll_name(scroll),
        Effect::CommandPrompt => "command prompt :"@,
        Effect::Bell => "bell"@,
        Effect::RecordingStarted(register) => "recording @"@.push(register),
        Effect::RecordingStopped(register) => "recorded @"@.push(register),
    }
}

fn render_edit(e: &Edit) -> (r: String)
    ensures
        r@ == edit_line(*e),
{
    let mut out: String = "edit ".to_owned();
    out.push_str(to_decimal(e.start_byte).as_str());
    out.push_str("..");
    out.push_str(to_decimal(e.old_end_byte).as_str());
    out.push_str(" -> ");
    out.push_str(to_decimal(e.new_end_byte).as_str());
    out.push_str("; (");
    out.push_str(to_decimal(e.start_point.row).as_str());
    out.push_str(",");
    out.push_str(to_decimal(e.start_point.col).as_str());
    out.push_str(")..(");
    out.push_str(to_decimal(e.old_end_point.row).as_str());
    out.push_str(",");
    out.push_str(to_decimal(e.old_end_point.col).as_str());
    out.push_str(") -> (");
    out.push_str(to_decimal(e.new_end_point.row).as_str());
    out.push_str(",");
    out.push_str(to_decimal(e.new_end_point.col).as_str());
    out.push_str(")");
    out
}

/// An effect, on one line.
#[must_use]
pub fn render_effect(effect: &Effect) -> (r: String)
    ensures
        r@ == effect_line(*effect),
{
    match effect {
        Effect::Edit(e) => render_edit(e),
        Effect::ModeChanged(mode) => {
            let mut out: String = "mode ".to_owned();
            out.push_str(name_mode(*mode));
            out
        },
        Effect::Scroll(scroll) => {
            let mut out: String = "scroll ".to_owned();
            out.push_str(name_scroll(*scroll));
            out
        },
        Effect::CommandPrompt => "command prompt :".to_owned(),
        Effect::Bell => "bell".to_owned(),
        Effect::RecordingStarted(register) => {
            let mut out: String = "recording @".to_owned();
            out.push(*register);
            out
        },
        Effect::RecordingStopped(register) => {
            let mut out: String = "recorded @".to_owned();
            out.push(*register);
            out
        },
    }
}

/// The first `n` effects, each on a line of its own, indented.
pub open spec fn effect_lines(effects: Seq<Effect>, n: int) -> Seq<char>
    decreases n,
{
    if n <= 0 {
        Seq::empty()
    } else {
        effect_lines(effects, n - 1) + "  "@ + effect_line(effects[n - 1]) + "\n"@
    }
}

fn render_effects(effects: &[Effect]) -> (r: String)
    ensures
        r@ == effect_lines(effects@, effects@.len() as int),
{
    let mut out = String::new();
    let mut i: usize = 0;
    assert(out@ =~= effect_lines(effects@, 0));
    while i < effects.len()
        invariant
            i <= effects.len(),
            out@ == effect_lines(effects@, i as int),
        decreases effects.len() - i,
    {
        out.push_str("  ");
        out.push_str(render_effect(&effects[i]).as_str());
        out.push_str("\n");
        i += 1;
    }
    out
}

// ---------------------------------------------------------------------------
// lists
// ---------------------------------------------------------------------------

/// The first `n` numbers, with commas between them.
pub open spec fn number_list(numbers: Seq<usize>, n: int) -> Seq<char>
    decreases n,
{
    if n <= 0 {
        Seq::empty()
    } else if n == 1 {
        strings::decimal(numbers[0] as int)
    } else {
        number_list(numbers, n - 1) + ", "@ + strings::decimal(numbers[n - 1] as int)
    }
}

/// The numbers, with commas between them.
fn render_numbers(numbers: &[usize]) -> (r: String)
    ensures
        r@ == number_list(numbers@, numbers@.len() as int),
{
    let mut out = String::new();
    let mut i: usize = 0;
    assert(out@ =~= number_list(numbers@, 0));
    while i < numbers.len()
        invariant
            i <= numbers.len(),
            out@ == number_list(numbers@, i as int),
        decreases numbers.len() - i,
    {
        if i == 0 {
            out = to_decimal(numbers[i]);
        } else {
            out.push_str(", ");
            out.push_str(to_decimal(numbers[i]).as_str());
        }
        i += 1;
    }
    out
}

/// The name of a mark's slot.
pub open spec fn slot_name(i: int) -> char {
    if i < 26 {
        (97 + i) as char
    } else if i == 26 {
        '<'
    } else if i == 27 {
        '>'
    } else if i == 28 {
        '['
    } else if i == 29 {
        ']'
    } else {
        '^'
    }
}

/// The marks that are set among the first `n` slots, each with its offset, with
/// commas between them.
pub open spec fn mark_list(s: EditorState, n: int) -> Seq<char>
    decreases n,
{
    if n <= 0 {
        Seq::empty()
    } else {
        let before = mark_list(s, n - 1);
        match s.mark(slot_name(n - 1)) {
            None => before,
            Some(offset) => {
                let entry = if before.len() == 0 {
                    Seq::empty()
                } else {
                    before + ", "@
                };
                entry.push(slot_name(n - 1)) + ":"@ + strings::decimal(offset as int)
            },
        }
    }
}

/// The marks that are set, each with its offset. The automatic marks are as much
/// state as the named ones.
fn render_marks(editor: &Editor) -> (r: String)
    requires
        editor.wf(),
    ensures
        r@ == mark_list(editor@, state::MARK_COUNT as int),
{
    let mut out = String::new();
    let mut i: usize = 0;
    assert(out@ =~= mark_list(editor@, 0));
    while i < state::MARK_COUNT
        invariant
            i <= state::MARK_COUNT,
            editor.wf(),
            out@ == mark_list(editor@, i as int),
        decreases state::MARK_COUNT - i,
    {
        let name: char = if i < 26 {
            (97 + i as u8) as char
        } else if i == 26 {
            '<'
        } else if i == 27 {
            '>'
        } else if i == 28 {
            '['
        } else if i == 29 {
            ']'
        } else {
            '^'
        };
        assert(name == slot_name(i as int));
        if let Some(offset) = editor.mark(name) {
            if strings::byte_len(out.as_str()) != 0 {
                assert(out@.len() > 0) by {
                    if out@.len() == 0 {
                        assert(out@ =~= Seq::<char>::empty());
                    }
                }
                out.push_str(", ");
            } else {
                assert(out@ =~= Seq::<char>::empty()) by {
                    encode_utf8_decode_utf8(out@);
                    assert(encode_utf8(out@) =~= Seq::<u8>::empty());
                }
            }
            out.push(name);
            out.push_str(":");
            out.push_str(to_decimal(offset).as_str());
        }
        i += 1;
    }
    out
}

// ---------------------------------------------------------------------------
// the block
// ---------------------------------------------------------------------------

/// The first lines of a block: the text, the cursor, the mode and the selection.
pub open spec fn head_lines(name: Seq<char>, s: EditorState) -> Seq<char> {
    let point = edit::point_at(s.text, s.cursor);
    let selection = match s.selection() {
        Some((a, b)) => strings::decimal(a) + ".."@ + strings::decimal(b),
        None => "-"@,
    };
    "== "@ + name + " ==\ntext: "@ + strings::debug_of(decode_utf8(s.text)) + "\ncursor: "@
        + strings::decimal(s.cursor) + " @ "@ + strings::decimal(point.row as int) + ":"@
        + strings::decimal(point.col as int) + "\nmode: "@ + mode_name(s.mode)
        + "; selection: "@ + selection
}

/// The lines after those: the register, the history, the jumps and the marks.
pub open spec fn store_lines(s: EditorState) -> Seq<char> {
    let kind = if s.register.linewise {
        "line "@
    } else {
        "char "@
    };
    "\nregister: "@ + kind + strings::debug_of(decode_utf8(s.register.text))
        + "\nhistory: undo="@ + strings::decimal(s.history.cursor) + " redo="@
        + strings::decimal(s.history.groups.len() - s.history.cursor) + "\njumps: ["@
        + number_list(s.jumps, s.jumps.len() as int) + "]\nmarks: ["@ + mark_list(
        s,
        state::MARK_COUNT as int,
    ) + "]\npending: "@
}

/// The last lines: the keys pending, those of the last change, and the recording.
pub open spec fn key_lines(s: EditorState) -> Seq<char> {
    let recording = match s.recording {
        Some((register, _)) => seq![register],
        None => "-"@,
    };
    strings::debug_of(key::notations(s.pending.keys)) + "; last-change: "@ + strings::debug_of(
        key::notations(s.last_change),
    ) + "; recording: "@ + recording + "\neffects:\n"@
}

/// A snapshot block, with the blank line that separates it from the next.
pub open spec fn block(name: Seq<char>, s: EditorState, effects: Seq<Effect>) -> Seq<char> {
    head_lines(name, s) + store_lines(s) + key_lines(s) + effect_lines(
        effects,
        effects.len() as int,
    ) + "\n"@
}

fn render_head(name: &str, editor: &Editor) -> (r: String)
    requires
        editor.wf(),
    ensures
        r@ == head_lines(name@, editor@),
{
    let point = editor.cursor_point();
    let selection: String = match editor.selection() {
        Some(range) => {
            let mut out: String = to_decimal(range.start);
            out.push_str("..");
            out.push_str(to_decimal(range.end).as_str());
            out
        },
        None => "-".to_owned(),
    };
    let text: String = editor.buffer().to_string();
    proof {
        encode_utf8_decode_utf8(text@);
    }
    let mut out: String = "== ".to_owned();
    out.push_str(name);
    out.push_str(" ==\ntext: ");
    out.push_str(strings::debug(text.as_str()).as_str());
    out.push_str("\ncursor: ");
    out.push_str(to_decimal(editor.cursor()).as_str());
    out.push_str(" @ ");
    out.push_str(to_decimal(point.row).as_str());
    out.push_str(":");
    out.push_str(to_decimal(point.col).as_str());
    out.push_str("\nmode: ");
    out.push_str(name_mode(editor.mode()));
    out.push_str("; selection: ");
    out.push_str(selection.as_str());
    out
}

fn render_stores(editor: &Editor) -> (r: String)
    requires
        editor.wf(),
    ensures
        r@ == store_lines(editor@),
{
    let register = editor.register();
    proof {
        encode_utf8_decode_utf8(register.text@);
    }
    let history = editor.document().history();
    let mut out: String = "\nregister: ".to_owned();
    out.push_str(
        if register.linewise {
            "line "
        } else {
            "char "
        },
    );
    out.push_str(strings::debug(register.text.as_str()).as_str());
    out.push_str("\nhistory: undo=");
    out.push_str(to_decimal(history.undo_depth()).as_str());
    out.push_str(" redo=");
    out.push_str(to_decimal(history.redo_depth()).as_str());
    out.push_str("\njumps: [");
    out.push_str(render_numbers(editor.jumps()).as_str());
    out.push_str("]\nmarks: [");
    out.push_str(render_marks(editor).as_str());
    out.push_str("]\npending: ");
    out
}

fn render_keys(editor: &Editor) -> (r: String)
    ensures
        r@ == key_lines(editor@),
{
    let recording: String = match editor.recording() {
        Some(register) => {
            let mut out = String::new();
            out.push(register);
            assert(out@ =~= seq![register]);
            out
        },
        None => "-".to_owned(),
    };
    let pending: String = render(editor.pending_keys());
    let last: String = render(editor.last_change());
    let mut out: String = strings::debug(pending.as_str());
    out.push_str("; last-change: ");
    out.push_str(strings::debug(last.as_str()).as_str());
    out.push_str("; recording: ");
    out.push_str(recording.as_str());
    out.push_str("\neffects:\n");
    out
}

/// Write the block of the case `name`, whose keys left `editor` and reported
/// `effects`, after `snapshot`.
pub fn render_case(snapshot: &mut String, name: &str, editor: &Editor, effects: &[Effect])
    requires
        editor.wf(),
    ensures
        final(snapshot)@ == old(snapshot)@ + block(name@, editor@, effects@),
{
    let mut out: String = render_head(name, editor);
    out.push_str(render_stores(editor).as_str());
    out.push_str(render_keys(editor).as_str());
    out.push_str(render_effects(effects).as_str());
    out.push_str("\n");
    snapshot.push_str(out.as_str());
}

} // verus!
