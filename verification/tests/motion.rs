use vici::{
    Bound, Buffer, Find, Motion, ObjectScope, Span, TextObject, Viewport, object_span,
    resolve_motion,
};

fn go(text: &str, from: usize, motion: Motion, count: Option<usize>) -> Option<usize> {
    let buffer = Buffer::from_text(text);
    resolve_motion(
        &buffer,
        from,
        motion,
        count,
        0,
        None,
        None,
        Viewport::default(),
        Bound::OnChar,
    )
}

#[test]
fn word_class_stepping() {
    for (text, from, motion, count, expected) in [
        (
            "select id, name",
            0,
            Motion::WordForward { big: false },
            None,
            Some(7),
        ),
        (
            "select id, name",
            7,
            Motion::WordForward { big: false },
            None,
            Some(9),
        ),
        (
            "select id, name",
            7,
            Motion::WordForward { big: true },
            None,
            Some(11),
        ),
        (
            "select id, name",
            9,
            Motion::WordBackward { big: false },
            None,
            Some(7),
        ),
        (
            "select id, name",
            0,
            Motion::WordEnd { big: false },
            None,
            Some(5),
        ),
        (
            "one two three",
            0,
            Motion::WordForward { big: false },
            Some(2),
            Some(8),
        ),
        (
            "one\ntwo",
            0,
            Motion::WordForward { big: false },
            None,
            Some(4),
        ),
    ] {
        assert_eq!(
            go(text, from, motion, count),
            expected,
            "{text:?} at {from}"
        );
    }
}

#[test]
fn finds_stay_on_their_row() {
    let find = |target, backward, till| {
        Motion::Find(Find {
            target,
            backward,
            till,
        })
    };
    for (text, from, motion, count, expected) in [
        ("select id, name", 0, find(',', false, false), None, Some(9)),
        ("select id, name", 0, find(',', false, true), None, Some(8)),
        (
            "select id, name",
            14,
            find('e', true, false),
            Some(2),
            Some(1),
        ),
        ("select id, name", 14, find('e', true, true), None, Some(4)),
        ("a.b.c.d", 0, find('.', false, false), Some(2), Some(3)),
        ("a\nb", 0, find('b', false, false), None, None),
    ] {
        assert_eq!(
            go(text, from, motion, count),
            expected,
            "{text:?} at {from}"
        );
    }
}

#[test]
fn delimiter_pair_scanning() {
    for (text, from, expected) in [
        ("x (a (b) c) y", 0, Some(10)),
        ("x (a (b) c) y", 2, Some(10)),
        ("x (a (b) c) y", 10, Some(2)),
        ("x (a (b) c) y", 5, Some(7)),
        ("say 'hi' there", 0, Some(7)),
        ("x\n(a)", 0, None),
    ] {
        assert_eq!(
            go(text, from, Motion::MatchPair, None),
            expected,
            "{text:?} at {from}"
        );
    }
}

#[test]
fn delimited_objects_follow_nesting() {
    let braces = TextObject::Delimited {
        open: '{',
        close: '}',
    };
    let buffer = Buffer::from_text("outer { mid { deep } here } end");
    for (count, expected) in [
        (1, Some(" deep ")),
        (2, Some(" mid { deep } here ")),
        (3, None),
    ] {
        let span =
            object_span(&buffer, 15, ObjectScope::Inner, braces, count).and_then(|span| {
                match span {
                    Span::Chars(range) => Some(buffer.text_in(range)),
                    Span::Lines(_) => None,
                }
            });
        assert_eq!(span.as_deref(), expected);
    }
}

#[test]
fn word_object_boundaries() {
    let word = TextObject::Word { big: false };
    for (text, at, scope, count, expected) in [
        ("select id", 2, ObjectScope::Inner, 1, Some("select")),
        ("select id", 2, ObjectScope::Around, 1, Some("select ")),
        ("a bb", 2, ObjectScope::Around, 1, Some(" bb")),
        ("one two three", 0, ObjectScope::Inner, 2, Some("one ")),
        ("one two three", 0, ObjectScope::Around, 2, Some("one two ")),
    ] {
        let buffer = Buffer::from_text(text);
        let span = object_span(&buffer, at, scope, word, count).and_then(|span| match span {
            Span::Chars(range) => Some(buffer.text_in(range)),
            Span::Lines(_) => None,
        });
        assert_eq!(span.as_deref(), expected, "{text:?} at {at}");
    }
}

#[test]
fn paragraph_object_counts_are_linewise() {
    let buffer = Buffer::from_text("one\n\ntwo\n\nthree");
    for (scope, count, expected) in [
        (ObjectScope::Inner, 2, "one\n\n"),
        (ObjectScope::Inner, 3, "one\n\ntwo\n"),
        (ObjectScope::Around, 2, "one\n\ntwo\n\n"),
    ] {
        let Span::Lines(rows) = object_span(&buffer, 0, scope, TextObject::Paragraph, count)
            .expect("paragraph resolves")
        else {
            panic!("paragraphs are linewise")
        };
        let range = buffer.row_range(*rows.start()).start..buffer.row_range(*rows.end()).end;
        assert_eq!(buffer.text_in(range), expected);
    }
}
