use vici::Document;

#[test]
fn records_the_preimage_before_applying_a_change() {
    let mut document = Document::from_text("abc");
    document.replace(0..1, "X");
    assert_eq!(document.to_string(), "Xbc");
    document.undo();
    assert_eq!(document.to_string(), "abc");
    document.redo();
    assert_eq!(document.to_string(), "Xbc");
}
