use core::ops::Range;

use unicode_segmentation::UnicodeSegmentation;
use vici::{
    Bound, Buffer, Editor, Effect, Find, Key, KeyCode, Keymap, Mode, Mods, Motion, ObjectScope,
    Pending, Point, Resolution, Span, TextObject, Viewport, keys, object_span, render,
    resolve_motion,
};

/// A small deterministic generator, so that a failure names its case.
struct Dice(u64);

impl Dice {
    fn roll(&mut self, sides: usize) -> usize {
        self.0 = self
            .0
            .wrapping_mul(6_364_136_223_846_793_005)
            .wrapping_add(1_442_695_040_888_963_407);
        ((self.0 >> 33) as usize) % sides
    }

    fn pick<'a>(&mut self, items: &[&'a str]) -> &'a str {
        items[self.roll(items.len())]
    }
}

const PARTS: [&str; 13] = [
    "", "a", "  ", "\t", "\n", "\r\n", "()[]{}<>", "!?,.;_", "café", "日本語", "🇦🇺", "👩‍💻", "word",
];

fn text(dice: &mut Dice) -> String {
    let mut text = String::new();
    for _ in 0..dice.roll(6) {
        text.push_str(dice.pick(&PARTS));
    }
    if text.is_empty() { "x".to_owned() } else { text }
}

fn replace_case(dice: &mut Dice) -> (String, Range<usize>, String) {
    let text_ = text(dice);
    let mut boundaries: Vec<usize> = text_.char_indices().map(|(index, _)| index).collect();
    boundaries.push(text_.len());
    let first = boundaries[dice.roll(boundaries.len())];
    let second = boundaries[dice.roll(boundaries.len())];
    let replacement = text(dice);
    (text_, first.min(second)..first.max(second), replacement)
}

const ATOMS: [&str; 35] = [
    "h", "j", "k", "l", "w", "b", "e", "W", "B", "E", "0", "^", "$", "G", "gg", "%", "dw",
    "ciw<Esc>", "yi(", ">>", "gUiw", "x", "X", "ré", "~", "J", "p", "P", "ié<Esc>",
    "i日本<Esc>", "vwd", "v~", "u", "<C-r>", ".",
];

const CHANGES: [&str; 15] = [
    "dw", "ciw<Esc>", ">>", "gUiw", "x", "X", "ré", "~", "J", "p", "P", "ié<Esc>", "i日本<Esc>",
    "vwd", "v~",
];

fn script(dice: &mut Dice, atoms: &[&str], least: usize, most: usize) -> Vec<Key> {
    let mut script = Vec::new();
    for _ in 0..least + dice.roll(most - least + 1) {
        script.extend(keys(dice.pick(atoms)).expect("curated key atom must parse"));
    }
    script
}

fn expected_point(text: &str, byte: usize) -> Point {
    let before = &text[..byte];
    Point::new(
        before.bytes().filter(|&byte| byte == b'\n').count(),
        before
            .rfind('\n')
            .map_or(before.len(), |newline| before.len() - newline - 1),
    )
}

fn grapheme_boundary(buffer: &Buffer, byte: usize) -> bool {
    let row = buffer.byte_to_point(byte).row;
    let range = buffer.row_content_range(row);
    if !(range.start..=range.end).contains(&byte) {
        return false;
    }
    let text = buffer.text_in(range.clone());
    byte == range.start
        || byte == range.start + text.len()
        || text
            .grapheme_indices(true)
            .any(|(index, _)| byte == range.start + index)
}

fn legal_offsets(buffer: &Buffer, bound: Bound) -> Vec<usize> {
    let mut offsets = Vec::new();
    for row in 0..buffer.len_rows() {
        let range = buffer.row_content_range(row);
        let text = buffer.text_in(range.clone());
        offsets.push(range.start);
        offsets.extend(
            text.grapheme_indices(true)
                .skip(1)
                .map(|(index, _)| range.start + index),
        );
        if bound == Bound::PastEnd {
            offsets.push(range.end);
        }
    }
    offsets.sort_unstable();
    offsets.dedup();
    offsets
}

fn motions() -> Vec<(Motion, Option<Find>)> {
    let find = |backward, till| Find {
        target: 'a',
        backward,
        till,
    };
    vec![
        (Motion::Left, None),
        (Motion::Right, None),
        (Motion::Down, None),
        (Motion::Up, None),
        (Motion::FirstColumn, None),
        (Motion::FirstNonBlank, None),
        (Motion::LastColumn, None),
        (Motion::WordForward { big: false }, None),
        (Motion::WordForward { big: true }, None),
        (Motion::WordBackward { big: false }, None),
        (Motion::WordBackward { big: true }, None),
        (Motion::WordEnd { big: false }, None),
        (Motion::WordEnd { big: true }, None),
        (Motion::Find(find(false, false)), None),
        (Motion::Find(find(true, true)), None),
        (Motion::RepeatFind { reverse: false }, Some(find(false, false))),
        (Motion::RepeatFind { reverse: true }, Some(find(false, false))),
        (Motion::GotoRow, None),
        (Motion::GotoFirstRow, None),
        (Motion::MatchPair, None),
        (Motion::ScreenTop, None),
        (Motion::ScreenMiddle, None),
        (Motion::ScreenBottom, None),
    ]
}

fn objects() -> Vec<TextObject> {
    let pair = |open, close| TextObject::Delimited { open, close };
    vec![
        TextObject::Word { big: false },
        TextObject::Word { big: true },
        pair('(', ')'),
        pair('[', ']'),
        pair('{', '}'),
        pair('<', '>'),
        TextObject::Quoted('"'),
        TextObject::Quoted('\''),
        TextObject::Quoted('`'),
        TextObject::Paragraph,
    ]
}

fn bytes_of(buffer: &Buffer, span: &Span) -> Range<usize> {
    match span {
        Span::Chars(range) => range.clone(),
        Span::Lines(rows) => {
            buffer.row_range(*rows.start()).start..buffer.row_range(*rows.end()).end
        }
    }
}

#[test]
fn change_inversion() {
    let mut dice = Dice(1);
    for _ in 0..400 {
        let (text, range, replacement) = replace_case(&mut dice);
        let mut buffer = Buffer::from_text(&text);
        let change = buffer.stage_replace(range.clone(), &replacement);
        let mut expected = text.clone();
        expected.replace_range(range, &replacement);
        buffer.apply(&change);
        assert_eq!(buffer.to_string(), expected);
        buffer.apply(&change.inverted());
        assert_eq!(buffer.to_string(), text);
        assert_eq!(change.edit.inverted().inverted(), change.edit);
    }
}

#[test]
fn edit_geometry() {
    let mut dice = Dice(2);
    for _ in 0..400 {
        let (text, range, replacement) = replace_case(&mut dice);
        let buffer = Buffer::from_text(&text);
        let change = buffer.stage_replace(range, &replacement);
        let edit = change.edit;
        let mut post = text.clone();
        post.replace_range(edit.start_byte..edit.old_end_byte, &replacement);
        assert!(edit.start_byte <= edit.old_end_byte && edit.old_end_byte <= text.len());
        assert!(edit.start_byte <= edit.new_end_byte && edit.new_end_byte <= post.len());
        assert_eq!(edit.start_point, expected_point(&text, edit.start_byte));
        assert_eq!(edit.old_end_point, expected_point(&text, edit.old_end_byte));
        assert_eq!(edit.new_end_point, expected_point(&post, edit.new_end_byte));
    }
}

#[test]
fn undo_returns_original_bytes() {
    let mut dice = Dice(3);
    for _ in 0..400 {
        let text = text(&mut dice);
        let script = script(&mut dice, &ATOMS, 0, 6);
        let mut editor = Editor::from_text(&text);
        editor.handle_keys(&script);
        let changed = editor.buffer().to_string();
        let depth = editor.document().history().undo_depth();
        for _ in 0..depth {
            editor.handle_key(Key::char('u'));
        }
        assert_eq!(editor.buffer().to_string(), text, "{}", render(&script));
        for _ in 0..depth {
            editor.handle_key(Key::ctrl('r'));
        }
        assert_eq!(editor.buffer().to_string(), changed, "{}", render(&script));
    }
}

#[test]
fn effect_stream_accounts_for_buffer() {
    let mut dice = Dice(4);
    for _ in 0..400 {
        let text = text(&mut dice);
        let script = script(&mut dice, &ATOMS, 0, 6);
        let mut editor = Editor::from_text(&text);
        let mut length = text.len();
        for effect in editor.handle_keys(&script) {
            if let Effect::Edit(edit) = effect {
                assert!(edit.start_byte <= edit.old_end_byte);
                assert!(edit.start_byte <= edit.new_end_byte);
                assert!(edit.old_end_byte <= length);
                length = length + edit.new_end_byte - edit.old_end_byte;
            }
        }
        assert_eq!(length, editor.buffer().len_bytes());
    }
}

#[test]
fn dot_repeats_recorded_change() {
    let mut dice = Dice(5);
    for _ in 0..400 {
        let text = text(&mut dice);
        let script = script(&mut dice, &CHANGES, 1, 5);
        let mut editor = Editor::from_text(&text);
        editor.handle_keys(&script);
        if editor.last_change().is_empty() {
            continue;
        }
        let recorded = editor.last_change().to_vec();
        let mut dot = editor.clone();
        let mut replay = editor;
        let once = dot.handle_key(Key::char('.'));
        let again = replay.handle_keys(&recorded);
        assert_eq!(once, again);
        assert_eq!(dot.buffer().to_string(), replay.buffer().to_string());
        assert_eq!(dot.cursor(), replay.cursor());
        assert_eq!(dot.mode(), replay.mode());
        assert_eq!(dot.selection(), replay.selection());
        assert_eq!(dot.register(), replay.register());
    }
}

#[test]
fn cursor_stays_on_legal_boundaries() {
    let mut dice = Dice(6);
    for _ in 0..400 {
        let text = text(&mut dice);
        let script = script(&mut dice, &ATOMS, 0, 6);
        let mut editor = Editor::from_text(&text);
        for key in script {
            editor.handle_key(key);
            let buffer = editor.buffer();
            assert!(editor.cursor() <= buffer.len_bytes());
            assert!(buffer.to_string().is_char_boundary(editor.cursor()));
            assert!(grapheme_boundary(buffer, editor.cursor()), "{text:?}");
            if let Some(selection) = editor.selection() {
                assert!(selection.start <= selection.end && selection.end <= buffer.len_bytes());
                assert!(buffer.to_string().is_char_boundary(selection.start));
                assert!(buffer.to_string().is_char_boundary(selection.end));
                assert!(grapheme_boundary(buffer, selection.start));
                assert!(grapheme_boundary(buffer, selection.end));
            }
        }
    }
}

#[test]
fn motions_stay_in_the_buffer() {
    let mut dice = Dice(7);
    for _ in 0..60 {
        let text = text(&mut dice);
        let buffer = Buffer::from_text(&text);
        let before = buffer.to_string();
        for bound in [Bound::OnChar, Bound::PastEnd] {
            let offsets = legal_offsets(&buffer, bound);
            let from = offsets[dice.roll(offsets.len())];
            for count in 1..=3 {
                for viewport in [
                    Viewport::default(),
                    Viewport { top_row: 0, height: 1 },
                    Viewport { top_row: 2, height: 4 },
                ] {
                    for (motion, find) in motions() {
                        let result = resolve_motion(
                            &buffer, from, motion, Some(count), 0, find, None, viewport, bound,
                        );
                        if let Some(landed) = result {
                            assert!(landed <= buffer.len_bytes());
                            assert!(text.is_char_boundary(landed));
                            assert!(grapheme_boundary(&buffer, landed), "{text:?} from {from}");
                        } else {
                            assert_eq!(buffer.to_string(), before);
                        }
                    }
                }
            }
        }
    }
}

#[test]
fn object_spans_are_well_formed() {
    let mut dice = Dice(8);
    let parts = ["a", " ", "café", "日本", "\n", "\r\n"];
    for _ in 0..60 {
        let mut inside = String::new();
        for _ in 0..dice.roll(5) {
            inside.push_str(dice.pick(&parts));
        }
        let text = format!("({inside})[{inside}]{{{inside}}}<{inside}>\"{inside}\"'{inside}'`{inside}`");
        let buffer = Buffer::from_text(&text);
        let mut offsets: Vec<usize> = text.char_indices().map(|(index, _)| index).collect();
        offsets.push(text.len());
        for at in offsets {
            for object in objects() {
                let inner = object_span(&buffer, at, ObjectScope::Inner, object, 1);
                let around = object_span(&buffer, at, ObjectScope::Around, object, 1);
                for span in [inner.as_ref(), around.as_ref()].into_iter().flatten() {
                    let range = bytes_of(&buffer, span);
                    assert!(range.start <= range.end && range.end <= text.len());
                    assert!(text.is_char_boundary(range.start));
                    assert!(text.is_char_boundary(range.end));
                }
                if let Some(inner) = inner {
                    let around = around.expect("inner text objects always have an around span");
                    let (inner, around) = (bytes_of(&buffer, &inner), bytes_of(&buffer, &around));
                    assert!(around.start <= inner.start && inner.end <= around.end);
                }
            }
        }
    }
}

#[test]
fn key_notation_round_trips() {
    let mut all: Vec<Key> = Vec::new();
    all.extend(['a', 'A', 'é', '日', '<', '>', '-'].map(Key::char));
    all.extend(
        [
            KeyCode::Esc,
            KeyCode::Enter,
            KeyCode::Tab,
            KeyCode::Backspace,
            KeyCode::Delete,
            KeyCode::Left,
            KeyCode::Right,
            KeyCode::F(1),
            KeyCode::F(12),
        ]
        .map(Key::code),
    );
    all.extend(['a', 'é', '-'].map(|ch| Key::new(KeyCode::Char(ch), Mods::CTRL)));
    all.extend([KeyCode::Tab, KeyCode::Left].map(|code| Key::new(code, Mods::SHIFT)));
    for key in &all {
        assert_eq!(keys(&render(&[*key])).expect("rendered key must parse"), vec![*key]);
    }
    assert_eq!(keys(&render(&all)), Ok(all));
}

#[test]
fn parser_always_resets() {
    let atoms = ["h", "d", "w", "i", "x", "z", "g", "1", "(", "<Esc>", "<C-r>"];
    let mut dice = Dice(9);
    let keymap = Keymap::vim();
    for _ in 0..300 {
        let mut pending = Pending::new();
        let mut consumed = Vec::new();
        for key in script(&mut dice, &atoms, 0, 16) {
            consumed.push(key);
            match pending.feed(key, Mode::Normal, &keymap) {
                Resolution::Pending => {}
                Resolution::Command { .. } => {
                    assert!(pending.is_idle());
                    consumed.clear();
                }
                Resolution::Rejected { keys } | Resolution::Cancelled { keys } => {
                    assert_eq!(&keys, &consumed);
                    assert!(pending.is_idle());
                    consumed.clear();
                }
            }
        }
    }
}
