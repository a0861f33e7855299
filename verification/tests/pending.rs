use vici::{
    Binding, Command, Find, InsertAt, Key, Keymap, Layer, Mode, Motion, ObjectScope, Operator,
    Pending, Resolution, Target, TextObject, VisualKind, keys,
};

fn resolve_in(mode: Mode, spec: &str) -> Resolution {
    let keymap = Keymap::vim();
    let mut pending = Pending::new();
    let parsed = keys(spec).expect("valid test notation");
    let (last, rest) = parsed.split_last().expect("non-empty test sequence");
    for key in rest {
        assert_eq!(pending.feed(*key, mode, &keymap), Resolution::Pending);
    }
    pending.feed(*last, mode, &keymap)
}

fn command(spec: &str) -> (Command, Option<usize>) {
    match resolve_in(Mode::Normal, spec) {
        Resolution::Command { command, count, .. } => (command, count),
        other => panic!("{spec:?} should resolve, got {other:?}"),
    }
}

#[test]
fn counts_and_operator_composition() {
    let word = Target::Motion(Motion::WordForward { big: false });
    for (spec, expected, count) in [
        ("3j", Command::Move(Motion::Down), Some(3)),
        (
            "2d3w",
            Command::Operate {
                operator: Operator::Delete,
                target: word,
            },
            Some(6),
        ),
        (
            "diw",
            Command::Operate {
                operator: Operator::Delete,
                target: Target::Object {
                    scope: ObjectScope::Inner,
                    object: TextObject::Word { big: false },
                },
            },
            None,
        ),
        (
            "dt;",
            Command::Operate {
                operator: Operator::Delete,
                target: Target::Motion(Motion::Find(Find {
                    target: ';',
                    backward: false,
                    till: true,
                })),
            },
            None,
        ),
        (
            "d'a",
            Command::Operate {
                operator: Operator::Delete,
                target: Target::Motion(Motion::Mark {
                    name: 'a',
                    exact: false,
                }),
            },
            None,
        ),
    ] {
        assert_eq!(command(spec), (expected, count), "{spec}");
    }
}

#[test]
fn doubled_operators_are_linewise() {
    for (spec, operator) in [
        ("dd", Operator::Delete),
        ("cc", Operator::Change),
        ("yy", Operator::Yank),
        (">>", Operator::ShiftRight),
        ("<lt><lt>", Operator::ShiftLeft),
    ] {
        assert_eq!(
            command(spec),
            (
                Command::Operate {
                    operator,
                    target: Target::CurrentRow,
                },
                None,
            )
        );
    }
}

#[test]
fn cancellation_and_rejection_reset_the_parser() {
    for spec in ["d!", "dy", "dx", "diz", "f<Left>", "mA", "`A"] {
        assert!(matches!(
            resolve_in(Mode::Normal, spec),
            Resolution::Rejected { .. }
        ));
    }
    for spec in ["d<Esc>", "2d<Esc>", "f<Esc>"] {
        assert!(matches!(
            resolve_in(Mode::Normal, spec),
            Resolution::Cancelled { .. }
        ));
    }
}

#[test]
fn marks_are_commands_or_motions_as_their_grammar_requires() {
    assert_eq!(command("ma").0, Command::SetMark('a'));
    assert_eq!(
        command("`a").0,
        Command::Move(Motion::Mark {
            name: 'a',
            exact: true,
        })
    );
    // `'` and `` ` `` name the position before the latest jump, and go
    // through the motion path like any other mark — so they carry the same
    // linewise/characterwise distinction and take an operator.
    for (spec, name, exact) in [("''", '\'', false), ("``", '`', true)] {
        assert_eq!(
            command(spec).0,
            Command::Move(Motion::Mark { name, exact }),
            "{spec}"
        );
    }
    assert_eq!(
        command("d''").0,
        Command::Operate {
            operator: Operator::Delete,
            target: Target::Motion(Motion::Mark {
                name: '\'',
                exact: false,
            }),
        }
    );
}

#[test]
fn insert_mode_falls_through_to_text() {
    for (mode, spec, expected) in [
        (Mode::Insert, "a", Command::InsertText('a')),
        (Mode::Insert, "3", Command::InsertText('3')),
        (Mode::Replace, "z", Command::InsertText('z')),
        (Mode::Insert, "<Esc>", Command::EnterNormal),
        (Mode::Insert, "<CR>", Command::InsertNewline),
    ] {
        match resolve_in(mode, spec) {
            Resolution::Command { command, count, .. } => {
                assert_eq!(command, expected, "{spec}");
                assert_eq!(count, None, "{spec}");
            }
            other => panic!("{spec:?} should resolve, got {other:?}"),
        }
    }
    assert!(matches!(
        resolve_in(Mode::Insert, "<C-q>"),
        Resolution::Rejected { .. }
    ));
    assert_eq!(command("i").0, Command::EnterInsert(InsertAt::Cursor));
    assert!(matches!(
        resolve_in(Mode::Visual(VisualKind::Char), "d"),
        Resolution::Command {
            command: Command::Operate {
                target: Target::Selection,
                ..
            },
            ..
        }
    ));
}

#[test]
fn custom_keymaps_flow_through_the_grammar() {
    let mut keymap = Keymap::vim();
    keymap.bind_spec(Layer::Normal, "<C-a>", Binding::Motion(Motion::LastColumn));
    let mut pending = Pending::new();
    assert_eq!(
        pending.feed(Key::char('d'), Mode::Normal, &keymap),
        Resolution::Pending
    );
    assert!(matches!(
        pending.feed(Key::ctrl('a'), Mode::Normal, &keymap),
        Resolution::Command {
            command: Command::Operate {
                operator: Operator::Delete,
                target: Target::Motion(Motion::LastColumn),
            },
            ..
        }
    ));
}
