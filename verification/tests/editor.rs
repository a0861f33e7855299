use vici::state::MAX_JUMPS;
use vici::{Binding, Editor, Keymap, Layer, Motion, Point};

#[test]
fn a_rebound_key_changes_behaviour_end_to_end() {
    let mut keymap = Keymap::vim();
    keymap
        .bind_spec(Layer::Normal, "j", Binding::Motion(Motion::Up))
        .bind_spec(Layer::Normal, "k", Binding::Motion(Motion::Down));
    let mut editor = Editor::with("one\ntwo\nthree", keymap);
    editor.type_keys("k").expect("valid test keys");
    assert_eq!(editor.cursor_point(), Point::new(1, 0));
    editor.type_keys("gg").expect("valid test keys");
    editor.type_keys("dk").expect("valid test keys");
    assert_eq!(editor.buffer().to_string(), "three");
}

#[test]
fn host_jumps_clamp_and_the_list_is_capped() {
    let mut editor = Editor::from_text("a🇦🇺");
    for _ in 0..=MAX_JUMPS {
        editor.jump_to(usize::MAX);
    }
    assert_eq!(editor.cursor(), 1);
    assert_eq!(editor.jumps().len(), MAX_JUMPS);
    assert!(editor.jumps().iter().all(|&jump| jump == 1));
    editor.set_text("new");
    assert!(editor.jumps().is_empty());
    assert_eq!(editor.mark('a'), None);
}
