use vici::{Key, KeyCode, Mods, ParseError, key, keys};

#[test]
fn aliases_parse_to_their_canonical_keys() {
    for (spec, expected) in [
        ("<Esc>", Key::code(KeyCode::Esc)),
        ("<CR>", Key::code(KeyCode::Enter)),
        ("<Space>", Key::char(' ')),
        ("<lt>", Key::char('<')),
        ("<F12>", Key::code(KeyCode::F(12))),
        ("<C-->", Key::ctrl('-')),
    ] {
        assert_eq!(key(spec), Ok(expected), "{spec}");
    }
}

#[test]
fn shift_normalises_characters_but_not_key_codes() {
    assert_eq!(key("<S-a>"), Ok(Key::char('A')));
    assert_eq!(key("A"), Ok(Key::char('A')));
    assert_eq!(key("<S-Tab>"), Ok(Key::new(KeyCode::Tab, Mods::SHIFT)));
}

#[test]
fn malformed_notation_reports_parse_errors() {
    assert_eq!(keys("<C-d"), Err(ParseError::UnterminatedBracket));
    assert_eq!(
        keys("<Nope>"),
        Err(ParseError::UnknownKey("Nope".to_owned()))
    );
    assert!(keys("<").is_err());
}
