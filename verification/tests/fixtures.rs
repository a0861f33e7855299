use vici::fixtures::{
    Case, Flaw, Settings, check_cases, check_settings, escape_text, format_case, parse_cases,
    parse_settings, render_effect, run_case, unescape, valid_name,
};
use vici::lenient;
use vici::{Effect, Indent, Mode, ParseError, Scroll, Viewport, VisualKind};

fn case(name: &str, text: &str, keys: &str, settings: Settings) -> Case {
    Case {
        name: name.to_owned(),
        text: text.to_owned(),
        keys: keys.to_owned(),
        settings,
    }
}

#[test]
fn cases_are_read_in_order() {
    let fixture = "# a comment\ncase one\ntext a\\nb\nkeys x\n---\n\n---\ncase two-2\r\ntext\r\nkeys dd\r\nwith viewport=0,6 indent=4,8,spaces\r\n";
    let cases = parse_cases(fixture);
    assert_eq!(cases.len(), 2);
    assert_eq!(cases[0].name, "one");
    assert_eq!(cases[0].text, "a\nb");
    assert_eq!(cases[0].keys, "x");
    assert_eq!(cases[0].settings.viewport, None);
    assert_eq!(cases[1].name, "two-2");
    assert_eq!(cases[1].text, "");
    assert_eq!(cases[1].keys, "dd");
    assert_eq!(cases[1].settings.viewport, Some(Viewport { top_row: 0, height: 6 }));
    assert_eq!(
        cases[1].settings.indent,
        Some(Indent { shift_width: 4, tab_width: 8, use_tabs: false })
    );
}

#[test]
fn every_flaw_is_named() {
    for (fixture, flaw) in [
        ("text a\nkeys x", Flaw::Unnamed),
        ("case Bad\ntext a\nkeys x", Flaw::Unnamed),
        ("case a\ntextual\nkeys x", Flaw::MalformedText),
        ("case a\ntext a\ntext b\nkeys x", Flaw::DuplicateText),
        ("case a\ntext \\q\nkeys x", Flaw::UnsupportedEscape),
        ("case a\ntext a\\\nkeys x", Flaw::TrailingBackslash),
        ("case a\ntext a\nkeys x\nkeys y", Flaw::DuplicateKeys),
        ("case a\ntext a\nkeys x\nwith viewport=0,1\nwith viewport=0,1", Flaw::DuplicateSettings),
        ("case a\ntext a\nkeys x\nnonsense", Flaw::UnknownLine),
        ("case a\nkeys x", Flaw::MissingText),
        ("case a\ntext a", Flaw::MissingKeys),
        ("case a\ntext a\nkeys x\n---\ncase a\ntext a\nkeys x", Flaw::DuplicateName),
        ("# nothing\n", Flaw::NoCases),
        ("case a\ntext a\nkeys x\nwith viewport", Flaw::NoValue),
        ("case a\ntext a\nkeys x\nwith viewport=0,1 viewport=0,1", Flaw::DuplicateViewport),
        ("case a\ntext a\nkeys x\nwith indent=1,2,tabs indent=1,2,tabs", Flaw::DuplicateIndent),
        ("case a\ntext a\nkeys x\nwith viewport=0,x", Flaw::InvalidNumber),
        ("case a\ntext a\nkeys x\nwith indent=1,2,dots", Flaw::UnknownIndent),
        ("case a\ntext a\nkeys x\nwith viewport=1,2,3", Flaw::UnsupportedSetting),
        ("case a\ntext a\nkeys x\nwith colour=1", Flaw::UnsupportedSetting),
    ] {
        assert_eq!(check_cases(fixture).err(), Some(flaw), "{fixture:?}");
    }
    assert_eq!(check_cases("case a\ntext a\nkeys x").map(|cases| cases.len()), Ok(1));
}

#[test]
fn names_are_kebab_case() {
    for (name, valid) in [
        ("a", true),
        ("a-b-2", true),
        ("", false),
        ("-a", false),
        ("a-", false),
        ("A", false),
        ("é", false),
        ("a b", false),
    ] {
        assert_eq!(valid_name(name), valid, "{name:?}");
    }
}

#[test]
fn escapes_read_back() {
    for text in ["", "a\nb", "\r\n\t\\", "\\n", "日本"] {
        let written = escape_text(text);
        assert!(!written.contains('\n') && !written.contains('\r'));
        assert_eq!(unescape(&written, "case"), text);
    }
    assert_eq!(escape_text("a\tb\\c"), "a\\tb\\\\c");
}

#[test]
fn settings_are_read() {
    let settings = parse_settings("viewport=+1,2\u{a0}indent=3,4,tabs", "case");
    assert_eq!(settings.viewport, Some(Viewport { top_row: 1, height: 2 }));
    assert_eq!(
        settings.indent,
        Some(Indent { shift_width: 3, tab_width: 4, use_tabs: true })
    );
    assert_eq!(
        check_settings("viewport=99999999999999999999999,1", "case").err(),
        Some(Flaw::InvalidNumber)
    );
}

#[test]
fn written_cases_read_back() {
    let viewport = Some(Viewport { top_row: 3, height: 10 });
    let indent = Some(Indent { shift_width: 2, tab_width: 4, use_tabs: true });
    for settings in [
        Settings { viewport: None, indent: None },
        Settings { viewport, indent: None },
        Settings { viewport: None, indent },
        Settings { viewport, indent },
    ] {
        let before = case("round-trip", "a\n\tb\\", "dw<Esc>", settings);
        let written = format_case(&before);
        for after in [parse_cases(&written), lenient::parse(&written)] {
            assert_eq!(after.len(), 1);
            assert_eq!(after[0].name, before.name);
            assert_eq!(after[0].text, before.text);
            assert_eq!(after[0].keys, before.keys);
            assert_eq!(after[0].settings.viewport, settings.viewport);
            assert_eq!(after[0].settings.indent, settings.indent);
        }
    }
    assert_eq!(
        format_case(&case("a", "b\n", "x", Settings { viewport, indent })),
        "case a\ntext b\\n\nkeys x\nwith viewport=3,10 indent=2,4,tabs\n"
    );
}

#[test]
fn a_case_runs_to_its_block() {
    let unset = Settings { viewport: None, indent: None };
    let block = run_case(&case("delete-word", "one \"two\"\n", "dw", unset));
    assert_eq!(
        block.as_deref(),
        Ok("== delete-word ==\n\
            text: \"\\\"two\\\"\\n\"\n\
            cursor: 0 @ 0:0\n\
            mode: Normal; selection: -\n\
            register: char \"one \"\n\
            history: undo=1 redo=0\n\
            jumps: []\n\
            marks: [[:0, ]:0]\n\
            pending: \"\"; last-change: \"dw\"; recording: -\n\
            effects:\n  edit 0..4 -> 0; (0,0)..(0,4) -> (0,0)\n\n")
    );
    let block = run_case(&case("select", "ab\ncd", "mavGqb2", unset)).expect("valid keys");
    assert_eq!(
        block,
        "== select ==\n\
         text: \"ab\\ncd\"\n\
         cursor: 3 @ 1:0\n\
         mode: Visual(Char); selection: 0..4\n\
         register: char \"\"\n\
         history: undo=0 redo=0\n\
         jumps: [0]\n\
         marks: [a:0]\n\
         pending: \"2\"; last-change: \"\"; recording: b\n\
         effects:\n  mode Visual(Char)\n  recording @b\n\n"
    );
    assert_eq!(
        run_case(&case("bad", "a", "<Nope>", unset)),
        Err(ParseError::UnknownKey("Nope".to_owned()))
    );
    assert_eq!(
        run_case(&case("bad", "a", "<C-d", unset)).map_err(|error| error.to_string()),
        Err("unterminated `<` in key sequence".to_owned())
    );
}

#[test]
fn settings_reach_the_editor() {
    let tabs = Settings {
        viewport: None,
        indent: Some(Indent { shift_width: 8, tab_width: 8, use_tabs: true }),
    };
    let block = run_case(&case("tabs", "a", ">>", tabs)).expect("valid keys");
    assert!(block.contains("text: \"\\ta\"\n"));
}

#[test]
fn effects_are_one_line_each() {
    for (effect, line) in [
        (Effect::ModeChanged(Mode::Visual(VisualKind::Line)), "mode Visual(Line)"),
        (Effect::ModeChanged(Mode::Replace), "mode Replace"),
        (Effect::Scroll(Scroll::HalfPageUp), "scroll HalfPageUp"),
        (Effect::CommandPrompt, "command prompt :"),
        (Effect::Bell, "bell"),
        (Effect::RecordingStarted('a'), "recording @a"),
        (Effect::RecordingStopped('z'), "recorded @z"),
    ] {
        assert_eq!(render_effect(&effect), line);
    }
}

#[test]
fn a_lenient_reading_passes_over_what_is_wrong() {
    let fixture = "nothing\n---\ncase Any Name\ntextual\nkeys x\nkeys y\nwhatever\nwith viewport=1,z size indent=q,2,tabs\n---\ncase b\ntext a\\qb\\";
    let cases = lenient::parse(fixture);
    assert_eq!(cases.len(), 2);
    assert_eq!(cases[0].name, "Any Name");
    assert_eq!(cases[0].text, "");
    assert_eq!(cases[0].keys, "y");
    assert_eq!(cases[0].settings.viewport, Some(Viewport { top_row: 1, height: 0 }));
    assert_eq!(
        cases[0].settings.indent,
        Some(Indent { shift_width: 4, tab_width: 2, use_tabs: true })
    );
    assert_eq!(cases[1].text, "aqb");
    assert_eq!(cases[1].keys, "");
}

#[test]
fn a_written_case_reads_back_whatever_its_text() {
    let unset = Settings { viewport: None, indent: None };
    for text in ["", " ", "\t x ", "a\r", "a\r\nb", "\\n", "case z\ntext y", "\u{2003}é\u{85}"] {
        let before = case("odd-text", text, "dw", unset);
        let after = parse_cases(&format_case(&before));
        assert_eq!(after.len(), 1);
        assert_eq!(after[0].name, "odd-text");
        assert_eq!(after[0].text, text);
        assert_eq!(after[0].keys, "dw");
    }
}
