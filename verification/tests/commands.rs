use vici::{
    Binding, Command, Editor, Effect, Indent, Key, Keymap, Layer, Mode, Point, Register, Scroll,
    Viewport, VisualKind,
};

fn typed(text: &str, keys: &str) -> Editor {
    let mut editor = Editor::from_text(text);
    editor.type_keys(keys).expect("valid test keys");
    editor
}

fn after(text: &str, keys: &str) -> String {
    typed(text, keys).buffer().to_string()
}

#[test]
fn operators_act_on_motions_objects_and_rows() {
    for (text, keys, expected) in [
        ("one two three", "dw", "two three"),
        ("one two three", "2dw", "three"),
        ("one two three", "wdiw", "one  three"),
        ("one two three", "wdaw", "one three"),
        ("one two three", "de", " two three"),
        ("one\ntwo\nthree", "dd", "two\nthree"),
        ("one\ntwo\nthree", "dj", "three"),
        ("one\ntwo\nthree", "jdd", "one\nthree"),
        ("one\ntwo\nthree", "Gdd", "one\ntwo"),
        ("a (b c) d", "fbdi(", "a () d"),
        ("a (b c) d", "fbda(", "a  d"),
        ("one two", "D", ""),
        ("one two", "wD", "one "),
        ("one two", "cwxyz<Esc>", "xyz two"),
        ("straße", "gUiw", "STRASSE"),
        ("ABC def", "guiw", "abc def"),
        ("aBc", "g~iw", "AbC"),
        ("one, two", "dt,", ", two"),
        ("one, two", "df,", " two"),
        ("日本語", "x", "本語"),
        ("🇦🇺x", "x", "x"),
    ] {
        assert_eq!(after(text, keys), expected, "{text:?} {keys}");
    }
}

#[test]
fn inserts_open_where_they_say() {
    for (text, keys, expected) in [
        ("  ab", "llix<Esc>", "  xab"),
        ("  ab", "llax<Esc>", "  axb"),
        ("  ab", "Ix<Esc>", "  xab"),
        ("  ab", "Ax<Esc>", "  abx"),
        ("ab", "ox<Esc>", "ab\nx"),
        ("ab", "Ox<Esc>", "x\nab"),
        ("abc", "Rxy<Esc>", "xyc"),
        ("ab", "ix<CR>y<Esc>", "x\nyab"),
        ("ab", "Ax<BS><BS><Esc>", "a"),
        ("ab", "Aone two<C-w><Esc>", "abone "),
    ] {
        assert_eq!(after(text, keys), expected, "{text:?} {keys}");
    }
}

#[test]
fn an_insert_session_is_one_undo_step() {
    let mut editor = typed("ab", "ixyz<Esc>");
    assert_eq!(editor.buffer().to_string(), "xyzab");
    assert_eq!(editor.document().history().undo_depth(), 1);
    editor.type_keys("u").expect("valid test keys");
    assert_eq!(editor.buffer().to_string(), "ab");
    editor.type_keys("<C-r>").expect("valid test keys");
    assert_eq!(editor.buffer().to_string(), "xyzab");
}

#[test]
fn undo_keys_lead_back_and_redo_keys_forward() {
    let mut editor = typed("one two\nthree\n", "dwix<Esc>jddAy<Esc>");
    let text = editor.buffer().to_string();
    let depth = editor.document().history().undo_depth();
    assert_eq!(depth, 4);
    for _ in 0..depth {
        editor.type_keys("u").expect("valid test keys");
    }
    assert_eq!(editor.buffer().to_string(), "one two\nthree\n");
    for _ in 0..depth {
        editor.type_keys("<C-r>").expect("valid test keys");
    }
    assert_eq!(editor.buffer().to_string(), text);
}

#[test]
fn a_dot_does_what_typing_the_change_again_does() {
    for (text, change, between) in [
        ("aa bb cc dd", "dw", ""),
        ("aa bb cc dd", "2dw", ""),
        ("aa bb cc dd", "cwx<Esc>", "w"),
        ("aa\nbb\ncc\ndd", "ccx<CR>y<Esc>", "j"),
        ("aa\nbb\ncc\ndd", "Ax.q<Esc>", "j"),
        ("aa\nbb\ncc\ndd", "dd", ""),
        ("aa bb cc dd", "vlx", "w"),
        ("aa bb cc dd", "v<C-r>lx", "w"),
        ("aa bb cc dd", "viwcx<Esc>", "w"),
        ("aa bb cc dd", "rz", "w"),
        ("aa bb cc dd", "gUiw", "w"),
        ("(aa) bb (cc)", "ci(x<Esc>", "0f(f("),
        ("(aa) bb", "ci(x<Esc>", "$"),
        ("\"aa\" bb", "ci\"x<Esc>", "$"),
        ("aa bb cc dd", "Rxy<Esc>", "w"),
        ("aa bb cc dd", "oxy<BS><Esc>", "k"),
    ] {
        let mut dotted = typed(text, &format!("{change}{between}"));
        let mut again = dotted.clone();
        let once = dotted.type_keys(".").expect("valid test keys");
        let twice = again.type_keys(change).expect("valid test keys");
        assert_eq!(once, twice, "{text:?} {change}");
        assert_eq!(dotted.buffer().to_string(), again.buffer().to_string());
        assert_eq!(dotted.cursor(), again.cursor());
        assert_eq!(dotted.mode(), again.mode());
        assert_eq!(dotted.selection(), again.selection());
        assert_eq!(dotted.register(), again.register());
    }
}

#[test]
fn a_dot_undoes_what_typing_undoes_while_nothing_is_open() {
    let mut dotted = typed("aa bb cc", "xxxci(u<Esc>");
    assert_eq!(dotted.buffer().to_string(), " bb cc");
    let mut again = dotted.clone();
    let change = again.last_change().to_vec();
    let once = dotted.type_keys(".").expect("valid test keys");
    let twice = again.handle_keys(&change);
    assert_eq!(once, twice);
    assert_eq!(dotted.buffer().to_string(), "a bb cc");
    assert_eq!(again.buffer().to_string(), dotted.buffer().to_string());
}

#[test]
fn a_step_is_applied_wherever_it_reaches() {
    // The macro deletes a character of what the step would take back.
    let mut editor = typed("xyz", "ihello<Esc>qaxuq");
    assert_eq!(editor.buffer().to_string(), "helloxyz");
    editor.type_keys("@a").expect("valid test keys");
    assert_eq!(editor.buffer().to_string(), "yz");

    // The step would put a character back past the end of the text.
    let mut editor = typed("(a) bbb", "faci(xu<Esc>$.");
    assert_eq!(editor.buffer().to_string(), "(a) bb");
    let effects = editor.type_keys("u").expect("valid test keys");
    assert_eq!(effects, vec![Effect::Bell]);
    assert_eq!(editor.buffer().to_string(), "(a) bb");
}

#[test]
fn a_redo_within_a_macro_takes_nothing_away() {
    let mut editor = typed("abcdef", "qax<C-r>q@a@a");
    assert_eq!(editor.buffer().to_string(), "def");
    editor.type_keys("uuu").expect("valid test keys");
    assert_eq!(editor.buffer().to_string(), "abcdef");
}

#[test]
fn a_selection_ends_a_step_right_of_its_far_end() {
    let mut editor = typed("xab\r\nc", "xjvkP");
    assert_eq!(editor.buffer().to_string(), "xab\r\nc");
    assert_eq!(editor.selection(), Some(0..3));
    editor.type_keys("d").expect("valid test keys");
    assert_eq!(editor.buffer().to_string(), "\r\nc");
}

#[test]
fn leaving_insert_mode_finds_a_grapheme() {
    assert_eq!(typed("ea", "a\u{301}").cursor(), 3);
    assert_eq!(typed("ea", "a\u{301}<Esc>").cursor(), 0);
    assert_eq!(typed("ea", "i\u{301}<Esc>l").cursor(), 2);
}

#[test]
fn a_macro_is_one_undo_step_and_does_what_typing_does() {
    let mut editor = typed("one two three four", "qadwq");
    assert_eq!(editor.buffer().to_string(), "two three four");
    editor.type_keys("2@a").expect("valid test keys");
    assert_eq!(editor.buffer().to_string(), "four");
    editor.type_keys("u").expect("valid test keys");
    assert_eq!(editor.buffer().to_string(), "two three four");
}

#[test]
fn recording_reports_its_ends() {
    let mut editor = Editor::from_text("x");
    let effects = editor.type_keys("qa").expect("valid test keys");
    assert_eq!(effects, vec![Effect::RecordingStarted('a')]);
    assert_eq!(editor.recording(), Some('a'));
    let effects = editor.type_keys("q").expect("valid test keys");
    assert_eq!(effects, vec![Effect::RecordingStopped('a')]);
    assert_eq!(editor.recording(), None);
}

#[test]
fn a_macro_that_plays_itself_stops() {
    let mut editor = typed("aaaa", "qax@aq");
    let effects = editor.type_keys("@a").expect("valid test keys");
    assert!(effects.contains(&Effect::Bell));
    assert_eq!(editor.buffer().to_string(), "");
}

#[test]
fn counts_before_a_dot_replay_the_whole_change() {
    assert_eq!(after("one two three four", "dw2."), "four");
    assert_eq!(after("abcdef", "x3."), "ef");
    assert_eq!(after("a b c", "wix<Esc>w."), "a xb xc");
}

#[test]
fn the_register_remembers_whether_it_was_linewise() {
    let editor = typed("one\ntwo", "yy");
    assert_eq!(
        editor.register(),
        &Register { text: "one\n".to_owned(), linewise: true }
    );
    assert_eq!(after("one\ntwo", "yyp"), "one\none\ntwo");
    assert_eq!(after("one\ntwo", "Gyyp"), "one\ntwo\ntwo");
    assert_eq!(after("one\ntwo", "jyyP"), "one\ntwo\ntwo");
    let editor = typed("one two", "yw");
    assert_eq!(
        editor.register(),
        &Register { text: "one ".to_owned(), linewise: false }
    );
    assert_eq!(after("one two", "ywP"), "one one two");
    assert_eq!(after("日本語", "xp"), "本日語");
    assert_eq!(typed("日本語", "xp").cursor(), 3);
}

#[test]
fn visual_mode_selects_and_operates() {
    let editor = typed("one two", "vl");
    assert_eq!(editor.mode(), Mode::Visual(VisualKind::Char));
    assert_eq!(editor.selection(), Some(0..2));
    assert_eq!(after("one two", "vld"), "e two");
    assert_eq!(after("one\ntwo\nthree", "Vjd"), "three");
    assert_eq!(after("one two", "viwU"), "ONE two");
    let editor = typed("one\ntwo", "V");
    assert_eq!(editor.mode(), Mode::Visual(VisualKind::Line));
    assert_eq!(editor.selection(), Some(0..4));
}

#[test]
fn surrounds_change_delete_and_wrap() {
    let change = |from, to| Command::ChangeSurround { from, to };
    for (text, keys, command, expected) in [
        ("a (b) c", "fbs", change('(', '['), "a [ b ] c"),
        ("a (b) c", "fbs", change('(', ']'), "a [b] c"),
        ("a ( b ) c", "fbs", change('(', '"'), "a \"b\" c"),
        ("a (b) c", "fbs", Command::DeleteSurround('('), "a b c"),
        ("a 'b' c", "fbs", Command::DeleteSurround('\''), "a b c"),
        ("a b c", "wviws", Command::SurroundSelection(')'), "a (b) c"),
        ("a b c", "wviws", Command::SurroundSelection('('), "a ( b ) c"),
        ("a\nb", "Vs", Command::SurroundSelection('}'), "{\na\n}\nb"),
        ("a b", "s", Command::DeleteSurround('('), "a b"),
    ] {
        let mut keymap = Keymap::vim();
        let layer = if keys.contains('v') || keys.contains('V') {
            Layer::Visual
        } else {
            Layer::Normal
        };
        keymap.bind_spec(layer, "s", Binding::Command(command));
        let mut editor = Editor::with(text, keymap);
        editor.type_keys(keys).expect("valid test keys");
        assert_eq!(editor.buffer().to_string(), expected, "{text:?} {keys}");
        editor.type_keys("u").expect("valid test keys");
        assert_eq!(editor.buffer().to_string(), text);
    }
}

#[test]
fn searches_find_and_repeat() {
    let editor = typed("one two one two", "/two<CR>");
    assert_eq!(editor.cursor(), 4);
    let editor = typed("one two one two", "/two<CR>n");
    assert_eq!(editor.cursor(), 12);
    let editor = typed("one two one two", "/two<CR>nN");
    assert_eq!(editor.cursor(), 4);
    let editor = typed("one two one two", "$?one<CR>");
    assert_eq!(editor.cursor(), 8);
    let mut editor = Editor::from_text("one");
    let effects = editor.type_keys("/zzz<CR>").expect("valid test keys");
    assert_eq!(effects, vec![Effect::Bell]);
}

#[test]
fn marks_and_jumps_come_back() {
    let editor = typed("one\ntwo\nthree", "jmaG'a");
    assert_eq!(editor.cursor_point(), Point::new(1, 0));
    let editor = typed("one\ntwo\nthree", "jlmaG`a");
    assert_eq!(editor.cursor_point(), Point::new(1, 1));
    let mut editor = Editor::from_text("one");
    let effects = editor.type_keys("'z").expect("valid test keys");
    assert_eq!(effects, vec![Effect::Bell]);
    let editor = typed("one\ntwo\nthree", "lG<C-o>");
    assert_eq!(editor.cursor(), 1);
}

#[test]
fn shifts_follow_the_indent_policy() {
    assert_eq!(after("ab", ">>"), "    ab");
    assert_eq!(after("        ab", "<lt><lt>"), "    ab");
    assert_eq!(after("\tab", "<lt><lt>"), "    ab");
    let mut editor = Editor::from_text("ab").with_indent(Indent {
        shift_width: 8,
        tab_width: 8,
        use_tabs: true,
    });
    editor.type_keys(">>").expect("valid test keys");
    assert_eq!(editor.buffer().to_string(), "\tab");
    let mut editor = Editor::from_text("\tab").with_indent(Indent {
        shift_width: 1,
        tab_width: 0,
        use_tabs: false,
    });
    editor.type_keys("<lt><lt>").expect("valid test keys");
    assert_eq!(editor.buffer().to_string(), "ab");
}

#[test]
fn rows_join_with_one_space() {
    assert_eq!(after("one\n  two", "J"), "one two");
    assert_eq!(after("one\ntwo\nthree", "3J"), "one two three");
}

#[test]
fn page_moves_need_a_viewport() {
    let text = "1\n2\n3\n4\n5\n6\n7\n8\n9\n10";
    let mut editor = Editor::from_text(text).with_viewport(Viewport { top_row: 0, height: 6 });
    let effects = editor.type_keys("<C-d>").expect("valid test keys");
    assert!(effects.contains(&Effect::Scroll(Scroll::HalfPageDown)));
    assert_eq!(editor.cursor_point().row, 3);
    let mut editor = Editor::from_text(text);
    assert_eq!(editor.type_keys("L"), Ok(vec![Effect::Bell]));
}

#[test]
fn unbound_keys_ring() {
    let mut editor = Editor::from_text("x");
    assert_eq!(editor.handle_key(Key::char('U')), vec![Effect::Bell]);
    assert_eq!(editor.buffer().to_string(), "x");
}

#[test]
fn keys_that_cannot_be_read_do_nothing() {
    let mut editor = Editor::from_text("abc");
    assert!(editor.type_keys("x<Nope>").is_err());
    assert_eq!(editor.buffer().to_string(), "abc");
}

#[test]
fn graphemes_stay_whole() {
    let editor = typed("a🇦🇺b", "l");
    assert_eq!(editor.cursor(), 1);
    let editor = typed("a🇦🇺b", "ll");
    assert_eq!(editor.cursor(), 9);
    assert_eq!(after("a👩‍💻b", "lx"), "ab");
    assert_eq!(after("éx", "~"), "Éx");
}

#[test]
fn set_text_starts_over_and_can_be_undone() {
    let mut editor = typed("one", "lma");
    let edit = editor.set_text("two three");
    assert_eq!((edit.start_byte, edit.old_end_byte, edit.new_end_byte), (0, 3, 9));
    assert_eq!(editor.cursor(), 0);
    assert_eq!(editor.mark('a'), None);
    editor.type_keys("u").expect("valid test keys");
    assert_eq!(editor.buffer().to_string(), "one");
}

#[test]
fn replayed_keys_are_not_recorded() {
    assert_eq!(after("abcdef", "qaxq"), "bcdef");
    assert_eq!(after("abcdef", "qaxqqbx@aq"), "def");
    assert_eq!(after("abcdef", "qaxqqbx@aq@b"), "f");
}

#[test]
fn undo_and_redo_put_the_caret_back() {
    let mut editor = typed("one two three", "wdw0");
    editor.type_keys("u").expect("valid test keys");
    assert_eq!(editor.cursor(), 4);
    editor.type_keys("0<C-r>").expect("valid test keys");
    assert_eq!(editor.cursor(), 4);
    let mut editor = typed("one two", "wohello<Esc>");
    assert_eq!(editor.buffer().to_string(), "one two\nhello");
    editor.type_keys("u").expect("valid test keys");
    assert_eq!(editor.buffer().to_string(), "one two");
    assert_eq!(editor.cursor(), 4);
    editor.type_keys("0<C-r>").expect("valid test keys");
    assert_eq!(editor.cursor_point(), Point::new(1, 4));
}

#[test]
fn swapping_case_walks_on_but_keeps_its_column() {
    let editor = typed("aa\nbb", "~");
    assert_eq!(editor.cursor(), 1);
    let editor = typed("aa\nbb", "~j");
    assert_eq!(editor.cursor(), 3);
    assert_eq!(after("abc", "2~~"), "ABC");
}

#[test]
fn jumps_can_be_retraced() {
    let editor = typed("one\ntwo\nthree", "lG<C-o>");
    assert_eq!(editor.cursor(), 1);
    let editor = typed("one\ntwo\nthree", "lG<C-o><C-i>");
    assert_eq!(editor.cursor_point(), Point::new(2, 0));
    let editor = typed("one\ntwo\nthree", "lG``");
    assert_eq!(editor.cursor(), 1);
    let editor = typed("one\ntwo\nthree", "lG````");
    assert_eq!(editor.cursor_point(), Point::new(2, 0));
}
