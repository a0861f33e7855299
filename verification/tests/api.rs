use vici::{
    Binding, Bound, Buffer, Document, Edit, Editor, Effect, History, Key, KeyCode, Keymap, Layer,
    Mode, Mods, Motion, ObjectScope, Operator, ParseError, Pending, Point, Span, Step, TextObject,
    Walk, clamp, delimiters, grapheme_col, is_count_digit, key, keys, object_span, row_span,
};

fn typed(text: &str, keys: &str) -> String {
    let mut editor = Editor::from_text(text);
    editor.type_keys(keys).expect("valid test keys");
    editor.buffer().to_string()
}

#[test]
fn scripts_read_as_keystrokes() {
    assert_eq!(typed("one two", "ciwX<Esc>w."), "X X");
    assert_eq!(typed("aa\nbb\ncc", "qa~jq@a@a"), "Aa\nBb\nCc");
    assert_eq!(
        typed("select id, name\nfrom users", "cwSELECT<Esc>"),
        "SELECT id, name\nfrom users"
    );
}

#[test]
fn a_trailing_newline_leaves_a_last_empty_row() {
    let editor = Editor::from_text("aa\nbb\ncc\n");
    assert_eq!(editor.buffer().len_rows(), 4);
    for keys in ["G>>", "Gx"] {
        assert_eq!(typed("aa\nbb\ncc\n", keys), "aa\nbb\ncc\n");
    }
}

#[test]
fn quotes_ignore_a_count() {
    assert_eq!(typed("a 'b' c", "fbdi'"), "a '' c");
    assert_eq!(typed("a 'b' c", "fbd2i'"), "a '' c");
}

#[test]
fn typing_reports_one_edit_a_key() {
    let mut editor = Editor::from_text("x");
    editor.type_keys("i").expect("valid test keys");
    for ch in ['a', 'é', '日'] {
        let effects = editor.handle_key(Key::char(ch));
        assert_eq!(effects.len(), 1);
        assert!(matches!(effects[0], Effect::Edit(_)));
    }
    editor.type_keys("<Esc>u").expect("valid test keys");
    assert_eq!(editor.buffer().to_string(), "x");
}

#[test]
fn edits_know_their_shape() {
    let buffer = Buffer::from_text("one\ntwo");
    let insertion = buffer.stage_replace(3..3, "!\n").edit;
    assert!(insertion.is_insertion() && !insertion.is_deletion());
    assert!(!insertion.is_single_row());
    assert_eq!(insertion.old_rows(), 0..=0);
    assert_eq!(insertion.new_rows(), 0..=1);
    let deletion = buffer.stage_replace(1..2, "").edit;
    assert!(deletion.is_deletion() && !deletion.is_insertion());
    assert!(deletion.is_single_row());
    let edit = Edit {
        start_byte: 2,
        old_end_byte: 4,
        new_end_byte: 7,
        start_point: Point::new(0, 2),
        old_end_point: Point::new(0, 4),
        new_end_point: Point::new(0, 7),
    };
    assert_eq!([0, 2, 4, 10].map(|offset| edit.shift(offset)), [0, 2, 7, 13]);
}

#[test]
fn buffers_answer_for_characters() {
    let buffer = Buffer::from_text("aé日");
    assert_eq!(buffer.len_bytes(), 6);
    assert_eq!(buffer.char_at(1), Some('é'));
    assert_eq!(buffer.char_before(1), Some('a'));
    assert_eq!(buffer.char_before(0), None);
    assert_eq!(buffer.char_at(6), None);
    assert!(buffer.is_boundary(3) && !buffer.is_boundary(2));
    assert_eq!(buffer.byte(0), b'a');
    assert_eq!(buffer.rope().len(), 6);
    assert_eq!(buffer.slice(1..3).to_string(), "é");
    let mut buffer = Buffer::from_text("ab");
    buffer.insert(1, "X");
    buffer.delete(0..1);
    buffer.replace(1..2, "日");
    assert_eq!(buffer.to_string(), "X日");
}

#[test]
fn documents_group_their_edits() {
    let mut document = Document::from_text("ab");
    document.grouped(|document| {
        document.insert(0, "x");
        document.delete(1..2);
    });
    assert_eq!(document.to_string(), "xb");
    assert_eq!(document.history().undo_depth(), 1);
    let step: Step = document.undo();
    assert!(!step.is_empty());
    assert_eq!(document.to_string(), "ab");
    assert!(document.undo().is_empty());
    document.history_mut().set_limit(Some(1));
    document.replace(0..1, "1");
    document.replace(1..2, "2");
    assert_eq!(document.history().undo_depth(), 1);
    document.history_mut().begin_group(None);
    document.history_mut().end_group(None);
    assert_eq!(document.history().undo_depth(), 1);
}

#[test]
fn keymaps_are_changed_in_place() {
    let mut editor = Editor::from_text("one two");
    editor
        .keymap_mut()
        .bind(Layer::Normal, &[Key::char('s')], Binding::Motion(Motion::LastColumn));
    editor.type_keys("s").expect("valid test keys");
    assert_eq!(editor.cursor(), 6);
    let mut keymap = Keymap::empty();
    assert_eq!(
        keymap
            .try_bind_spec(Layer::Normal, "<Nope>", Binding::Operator(Operator::Yank))
            .err(),
        Some(ParseError::UnknownKey("Nope".to_owned()))
    );
    assert!(
        keymap
            .try_bind_spec(Layer::Normal, "gy", Binding::Operator(Operator::Yank))
            .is_ok()
    );
    assert_eq!(
        keymap.walk(Layer::Normal, &keys("gy").expect("valid notation")),
        Walk::Bound(Binding::Operator(Operator::Yank))
    );
    assert_eq!(keymap.object(Key::char('w')), None);
    keymap.bind_object(Key::char('w'), TextObject::Paragraph);
    assert_eq!(keymap.object(Key::char('w')), Some(TextObject::Paragraph));
}

#[test]
fn digits_count_unless_modified() {
    assert!(is_count_digit(Key::char('7')));
    assert!(!is_count_digit(Key::char('a')));
    assert!(!is_count_digit(Key::ctrl('7')));
    assert_eq!(Key::char('7').as_digit(), Some(7));
    assert_eq!(Key::char('7').as_text(), Some('7'));
    assert_eq!(Key::ctrl('a').as_text(), None);
}

#[test]
fn modifiers_combine() {
    let both = Mods::CTRL | Mods::ALT;
    assert!(both.contains(Mods::CTRL) && both.contains(Mods::ALT));
    assert!(!both.contains(Mods::SHIFT));
    assert!(Mods::NONE.is_empty());
    assert_eq!(key("<C-A-x>"), Ok(Key::new(KeyCode::Char('x'), both)));
    assert_eq!(Key::new(KeyCode::Char('x'), both).to_string(), "<C-M-x>");
    assert_eq!(Key::char('<').to_string(), "<lt>");
}

#[test]
fn a_parser_says_which_operator_waits() {
    let keymap = Keymap::vim();
    let mut pending = Pending::new();
    pending.feed(Key::char('2'), Mode::Normal, &keymap);
    pending.feed(Key::char('d'), Mode::Normal, &keymap);
    assert_eq!(pending.operator(), Some(Operator::Delete));
    assert_eq!(pending.keys(), keys("2d").expect("valid notation"));
    pending.reset();
    assert!(pending.is_idle());
}

#[test]
fn positions_are_clamped_to_graphemes() {
    let buffer = Buffer::from_text("a🇦🇺\nb");
    assert_eq!(clamp(&buffer, 5, Bound::OnChar), 1);
    assert_eq!(clamp(&buffer, 9, Bound::OnChar), 1);
    assert_eq!(clamp(&buffer, 9, Bound::PastEnd), 9);
    assert_eq!(clamp(&buffer, 99, Bound::OnChar), 10);
    assert_eq!(grapheme_col(&buffer, 9), 2);
    assert_eq!(row_span(&buffer, 0, 0), 0..10);
    assert_eq!(row_span(&buffer, 0, 1), 0..11);
}

#[test]
fn rows_go_with_their_own_newline_where_they_have_one() {
    let ended = Buffer::from_text("a\nb\n");
    assert_eq!(row_span(&ended, 0, 0), 0..2);
    assert_eq!(row_span(&ended, 1, 1), 2..4);
    assert_eq!(row_span(&ended, 0, 1), 0..4);
    assert_eq!(row_span(&ended, 2, 2), 3..4);
    let open = Buffer::from_text("a\nb");
    assert_eq!(row_span(&open, 1, 1), 1..3);
    assert_eq!(row_span(&open, 0, 1), 0..3);
    assert_eq!(typed("a\nb\n", "jdd"), "a\n");
    assert_eq!(typed("a\nb\n", "jVd"), "a\n");
    assert_eq!(typed("a\nb", "jdd"), "a");
    assert_eq!(typed("a\nb\nc\n", "jdj"), "a\n");
}

#[test]
fn a_block_over_crlf_rows_keeps_its_terminators() {
    let buffer = Buffer::from_text("{\r\nx\r\n}");
    let braces = TextObject::Delimited { open: '{', close: '}' };
    assert_eq!(object_span(&buffer, 3, ObjectScope::Inner, braces, 1), Some(Span::Chars(3..6)));
    assert_eq!(object_span(&buffer, 3, ObjectScope::Around, braces, 1), Some(Span::Chars(0..7)));
    assert_eq!(typed("{\r\nx\r\n}", "jdi{"), "{\r\n}");
}

#[test]
fn delimiters_are_found_around_and_ahead() {
    let buffer = Buffer::from_text("x (a) 'b'");
    let parens = TextObject::Delimited { open: '(', close: ')' };
    assert_eq!(delimiters(&buffer, 3, parens), Some((2, 4)));
    assert_eq!(delimiters(&buffer, 7, TextObject::Quoted('\'')), Some((6, 8)));
    assert_eq!(delimiters(&buffer, 3, TextObject::Paragraph), None);
}
