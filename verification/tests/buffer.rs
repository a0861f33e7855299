use vici::{Buffer, Point};

#[test]
fn rows_are_counted_by_lf_only() {
    let buffer = Buffer::from_text("a\rb\nc");
    assert_eq!(buffer.len_rows(), 2);
    assert_eq!(buffer.row_text(0), "a\rb");
    assert_eq!(buffer.byte_to_point(4), Point::new(1, 0));
}

#[test]
fn crlf_is_preserved_as_a_single_terminator() {
    let buffer = Buffer::from_text("a\r\nb");
    assert_eq!(buffer.row_range(0), 0..3);
    assert_eq!(buffer.row_content_range(0), 0..1);
    assert_eq!(buffer.row_text(0), "a");
    assert_eq!(buffer.to_string(), "a\r\nb");
}

#[test]
fn point_to_byte_clamps_stale_coordinates() {
    let buffer = Buffer::from_text("one\ntwo");
    assert_eq!(buffer.point_to_byte(Point::new(99, 0)), 4);
    assert_eq!(buffer.point_to_byte(Point::new(1, 99)), 7);
}

#[test]
fn an_empty_buffer_has_one_empty_row() {
    let buffer = Buffer::new();
    assert!(buffer.is_empty());
    assert_eq!(buffer.len_rows(), 1);
    assert_eq!(buffer.row_content_range(0), 0..0);
    assert_eq!(buffer.byte_to_point(0), Point::new(0, 0));
}

#[test]
fn a_lone_carriage_return_is_content() {
    let buffer = Buffer::from_text("a\r");
    assert_eq!(buffer.row_content_range(0), 0..2);
    assert_eq!(buffer.row_text(0), "a\r");
    let buffer = Buffer::from_text("a\r\nb\r");
    assert_eq!(buffer.row_content_range(0), 0..1);
    assert_eq!(buffer.row_content_range(1), 3..5);
    let buffer = Buffer::from_text("\r");
    assert_eq!(buffer.row_content_range(0), 0..1);
}

#[test]
fn a_change_and_its_inverse_swap_texts() {
    let mut buffer = Buffer::from_text("one two");
    let change = buffer.stage_replace(4..7, "2");
    assert!(!change.is_noop());
    let back = change.inverted();
    assert_eq!(back.removed, "2");
    assert_eq!(back.inserted, "two");
    assert!(!back.is_noop());
    assert_eq!(back.inverted(), change);
    buffer.apply(&change);
    assert_eq!(buffer.to_string(), "one 2");
    buffer.apply(&back);
    assert_eq!(buffer.to_string(), "one two");

    let idle = buffer.stage_replace(4..7, "two");
    assert!(idle.is_noop());
    assert!(idle.inverted().is_noop());
    buffer.apply(&idle);
    assert_eq!(buffer.to_string(), "one two");
    assert!(buffer.stage_replace(3..3, "").is_noop());
}

#[test]
fn the_row_past_the_last_is_empty() {
    let buffer = Buffer::from("a\nb");
    assert_eq!(buffer.to_string(), "a\nb");
    assert_eq!(buffer.row_text(1), "b");
    assert_eq!(buffer.row_text(2), "");
    assert_eq!(buffer.row_content_range(2), 3..3);
}

#[test]
fn a_change_is_applied_where_its_extent_lies() {
    let mut buffer = Buffer::from_text("one two");
    let change = buffer.stage_replace(4..7, "2");
    buffer.replace(4..7, "six");
    buffer.apply(&change);
    assert_eq!(buffer.to_string(), "one 2");
}
