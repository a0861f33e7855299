use vici::frame::Caret;
use vici::oracle::{Missing, Request, Source, flag, path_arg, replay, request};
use vici::screen::{cells, decimals, ellipsis, expand_from, follow_top, scroll_top};
use vici::session::{Code, Colour, LOG_CAP, Press, Session, translate};
use vici::{Key, KeyCode, Mode, Mods, Scroll, lenient};

fn args(list: &[&str]) -> Vec<String> {
    list.iter().map(|arg| (*arg).to_owned()).collect()
}

fn press(code: Code) -> Press {
    Press { code, ctrl: false, alt: false, shift: false }
}

fn session(text: &str) -> Session {
    let mut session = Session::new("file.txt".to_owned(), text, "file.txt".to_owned());
    session.resize(4);
    session
}

fn type_text(session: &mut Session, text: &str) {
    for ch in text.chars() {
        assert!(!session.on_key(press(Code::Char(ch))));
    }
}

fn status(session: &Session) -> Vec<String> {
    session.status_line().into_iter().map(|piece| piece.text).collect()
}

// -- the oracle ---------------------------------------------------------------

#[test]
fn flags_take_the_next_argument_or_what_follows_equals() {
    let list = args(&["--text", "a b", "--keys=dw", "--name"]);
    assert_eq!(flag(&list, "--text").as_deref(), Some("a b"));
    assert_eq!(flag(&list, "--keys").as_deref(), Some("dw"));
    assert_eq!(flag(&list, "--name"), None);
    assert_eq!(flag(&list, "--with"), None);
}

#[test]
fn paths_come_first_or_behind_replay() {
    assert_eq!(path_arg(&args(&["cases.vici"])).as_deref(), Some("cases.vici"));
    assert_eq!(path_arg(&args(&["--replay", "x"])).as_deref(), Some("x"));
    assert_eq!(path_arg(&args(&["--text", "x"])), None);
    assert_eq!(path_arg(&args(&[])), None);
}

#[test]
fn requests_are_understood() {
    assert!(matches!(request(&args(&["x", "--help"])), Ok(Request::Help)));
    assert!(matches!(request(&args(&["x"])), Ok(Request::Replay(path)) if path == "x"));
    assert_eq!(request(&args(&["--keys", "x"])).err(), Some(Missing::Text));
    assert_eq!(request(&args(&["--text", "x"])).err(), Some(Missing::Keys));
    assert_eq!(Missing::Text.message(), "missing --text");
    assert_eq!(Missing::Keys.message(), "missing --keys");
    match request(&args(&["--text=-", "--keys", "dw", "--with", "viewport=0,1"])) {
        Ok(Request::One { name, text, keys, settings }) => {
            assert_eq!(name, "case");
            assert!(matches!(text, Source::Stdin));
            assert_eq!(keys, "dw");
            assert_eq!(settings.as_deref(), Some("viewport=0,1"));
        }
        other => panic!("expected one case, got {other:?}"),
    }
}

#[test]
fn bad_keys_are_heard_about_in_the_blocks() {
    let cases = lenient::parse("case a\ntext x\nkeys <Nope>\n---\ncase b\ntext x\nkeys x\n");
    let out = replay(&cases);
    assert!(out.starts_with("== a ==\ninvalid keys: unknown key name `<Nope>`\n\n== b ==\ntext: \"\"\n"));
}

// -- the screen ---------------------------------------------------------------

#[test]
fn tabs_and_wide_characters_are_measured() {
    assert_eq!(expand_from("a\tb", 0), ("a       b".to_owned(), 9));
    assert_eq!(expand_from("\t", 3), ("     ".to_owned(), 8));
    assert_eq!(expand_from("日本", 0), ("日本".to_owned(), 4));
    assert_eq!(expand_from("e\u{301}", 0).1, 1);
}

#[test]
fn numbers_and_texts_are_fitted() {
    assert_eq!([0, 9, 10, 12345].map(decimals), [1, 1, 2, 5]);
    assert_eq!(ellipsis("one\ntwo", 16), "one⏎two");
    assert_eq!(ellipsis("0123456789abcdefg", 16), "0123456789abcdef…");
    assert_eq!(cells(70_000), u16::MAX);
    assert_eq!(cells(7), 7);
}

#[test]
fn windows_scroll_and_follow() {
    for (scroll, expected) in [
        (Scroll::HalfPageDown, 15),
        (Scroll::HalfPageUp, 5),
        (Scroll::PageDown, 18),
        (Scroll::PageUp, 2),
        (Scroll::Center, 7),
        (Scroll::Top, 12),
        (Scroll::Bottom, 3),
    ] {
        assert_eq!(scroll_top(10, 10, 100, 12, scroll), expected, "{scroll:?}");
    }
    assert_eq!(scroll_top(10, 10, 12, 11, Scroll::PageDown), 11);
    assert_eq!(scroll_top(1, 0, 12, 0, Scroll::PageUp), 0);
    assert_eq!(follow_top(10, 5, 3), 3);
    assert_eq!(follow_top(10, 5, 14), 10);
    assert_eq!(follow_top(10, 5, 15), 11);
    assert_eq!(follow_top(0, 0, 3), 3);
}

// -- the session --------------------------------------------------------------

#[test]
fn presses_become_keys() {
    assert_eq!(
        translate(Press { code: Code::Char('A'), ctrl: false, alt: false, shift: true }),
        Some(Key::char('A'))
    );
    assert_eq!(
        translate(Press { code: Code::Char('d'), ctrl: true, alt: false, shift: false }),
        Some(Key::ctrl('d'))
    );
    assert_eq!(
        translate(press(Code::BackTab)),
        Some(Key::new(KeyCode::Tab, Mods::SHIFT))
    );
    assert_eq!(translate(press(Code::F(5))), Some(Key::code(KeyCode::F(5))));
    assert_eq!(translate(press(Code::Other)), None);
}

#[test]
fn a_session_can_always_be_left() {
    let mut one = session("x");
    type_text(&mut one, ":abc");
    one.on_key(press(Code::F(10)));
    assert!(one.is_over());
    let mut two = session("x");
    two.on_key(Press { code: Code::Char('c'), ctrl: true, alt: false, shift: false });
    assert!(two.is_over());
    let mut three = session("x");
    type_text(&mut three, "i");
    three.on_key(Press { code: Code::Char('c'), ctrl: true, alt: false, shift: false });
    assert!(!three.is_over());
    assert_eq!(three.mode(), Mode::Normal);
}

#[test]
fn prompts_write_and_quit() {
    let mut session = session("abc");
    type_text(&mut session, "x:q");
    assert_eq!(status(&session), [":q"]);
    assert_eq!(session.caret(1), Caret::Prompt { col: 2 });
    assert!(!session.on_key(press(Code::Enter)));
    assert!(!session.is_over());
    assert!(status(&session).contains(&"unsaved changes — `:q!` to discard".to_owned()));
    assert_eq!(session.title(), " file.txt [+] ");
    type_text(&mut session, ": w ");
    assert!(session.on_key(press(Code::Enter)));
    assert_eq!(session.text(), "bc");
    session.saved(Ok(()));
    assert!(status(&session).contains(&"wrote file.txt".to_owned()));
    assert_eq!(session.title(), " file.txt ");
    session.saved(Err("no room".to_owned()));
    assert!(status(&session).contains(&"write failed: no room".to_owned()));
    type_text(&mut session, ":z");
    session.on_key(press(Code::Enter));
    assert!(status(&session).contains(
        &"`:z` is a host concern, and this host only knows w, q, q!, wq".to_owned()
    ));
    type_text(&mut session, ":a");
    session.on_key(press(Code::Backspace));
    session.on_key(press(Code::Backspace));
    assert_eq!(status(&session)[0], " NORMAL ");
    type_text(&mut session, ":wq");
    assert!(session.on_key(press(Code::Enter)));
    assert!(session.is_over());
}

#[test]
fn frames_show_the_session() {
    let mut session = session("a\tb\n日本\nc\nd\ne");
    assert_eq!(session.gutter(), 1);
    let rows = session.rows(1);
    assert_eq!(rows.len(), 4);
    assert_eq!(rows[0].label, "1 ");
    assert_eq!(rows[0].parts[0].text, "a       b");
    type_text(&mut session, "vll");
    let rows = session.rows(2);
    assert_eq!(rows[0].label, " 1 ");
    assert_eq!(rows[0].parts.len(), 1);
    assert!(rows[0].parts[0].selected);
    assert_eq!(session.caret(1), Caret::Text { row: 0, col: 10 });
    session.on_key(press(Code::Esc));
    type_text(&mut session, "jl");
    assert_eq!(session.caret(1), Caret::Text { row: 1, col: 4 });
    type_text(&mut session, "G");
    assert_eq!(session.rows(1)[0].label, "2 ");
    assert_eq!(session.caret(1), Caret::Text { row: 3, col: 2 });
    session.resize(0);
    assert_eq!(session.caret(1), Caret::Hidden);
}

#[test]
fn the_status_line_says_what_there_is_to_say() {
    let mut session = session("one two");
    assert_eq!(status(&session), [" NORMAL ", " 1:0 b0 ", "file.txt"]);
    type_text(&mut session, "qay");
    assert_eq!(status(&session), [" NORMAL ", " 1:0 b0 ", "cmd:y ", "rec:@a "]);
    type_text(&mut session, "w");
    assert_eq!(
        status(&session),
        [" NORMAL ", " 1:0 b0 ", "rec:@a ", "reg[char]:one  "]
    );
    type_text(&mut session, "qyyi");
    let line = session.status_line();
    assert_eq!(line[0].text, " INSERT ");
    assert_eq!(line[0].bg, Some(Colour::Green));
    assert!(line[0].bold);
    assert_eq!(line[2].text, "reg[line]:one two⏎ ");
}

#[test]
fn the_log_keeps_its_latest_lines() {
    let mut session = session("ab");
    assert_eq!(session.log_width(), 38);
    type_text(&mut session, "x");
    let log = session.recent_log(10);
    assert_eq!(log.len(), 1);
    assert_eq!(log[0].text, "edit  0..1→0  (0,0)→(0,0)");
    assert_eq!(log[0].colour, Colour::Green);
    for _ in 0..LOG_CAP + 5 {
        session.on_key(press(Code::Char('U')));
    }
    assert_eq!(session.recent_log(usize::MAX).len(), LOG_CAP);
    assert_eq!(session.recent_log(1)[0].text, "bell");
    session.on_key(press(Code::F(2)));
    assert_eq!(session.log_width(), 0);
}
