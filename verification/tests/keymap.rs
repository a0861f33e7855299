use vici::{Binding, Keymap, Layer, Motion, Operator, Walk, keys};

fn walk(map: &Keymap, layer: Layer, spec: &str) -> Walk {
    map.walk(layer, &keys(spec).expect("valid test notation"))
}

#[test]
fn lookup_distinguishes_hits_prefixes_and_unbound_paths() {
    let map = Keymap::vim();
    for (spec, expected) in [
        ("h", Walk::Bound(Binding::Motion(Motion::Left))),
        ("g", Walk::Prefix),
        ("gg", Walk::Bound(Binding::Motion(Motion::GotoFirstRow))),
        ("gx", Walk::Unbound),
    ] {
        assert_eq!(walk(&map, Layer::Normal, spec), expected, "{spec}");
    }
}

#[test]
fn layers_fall_back_and_shadow() {
    let map = Keymap::vim();
    assert_eq!(
        walk(&map, Layer::Operator, "w"),
        Walk::Bound(Binding::Motion(Motion::WordForward { big: false }))
    );
    assert_eq!(
        walk(&map, Layer::Visual, "x"),
        Walk::Bound(Binding::Operator(Operator::Delete))
    );
    assert_eq!(walk(&map, Layer::Insert, "w"), Walk::Unbound);
}

#[test]
fn keys_features_calls_unbound_really_are() {
    // Keep in step with FEATURES.txt §17. D/C were bound while both the
    // checklist and the README still called them unbound.
    for spec in ["s", "S", "{", "}", "<C-v>", "\"", "U"] {
        let path = keys(spec).expect("valid notation");
        assert_eq!(
            Keymap::vim().walk(Layer::Normal, &path),
            Walk::Unbound,
            "{spec} is bound but FEATURES §17 says it rings"
        );
    }

    let path = keys("<C-o>").expect("valid notation");
    assert_eq!(
        Keymap::vim().walk(Layer::Insert, &path),
        Walk::Unbound,
        "<C-o> is bound but FEATURES §17 says it rings in insert mode"
    );
}

#[test]
fn binding_and_unbinding_replace_subtrees() {
    let mut map = Keymap::vim();
    map.bind_spec(Layer::Normal, "g", Binding::Motion(Motion::Left));
    assert_eq!(
        walk(&map, Layer::Normal, "g"),
        Walk::Bound(Binding::Motion(Motion::Left))
    );
    assert_eq!(walk(&map, Layer::Normal, "gg"), Walk::Unbound);

    let mut map = Keymap::empty();
    map.bind_spec(Layer::Normal, "d", Binding::Motion(Motion::Left));
    map.bind_spec(Layer::Normal, "dd", Binding::Motion(Motion::Right));
    assert_eq!(walk(&map, Layer::Normal, "d"), Walk::Prefix);
    map.unbind(Layer::Normal, &keys("d").expect("valid test notation"));
    assert_eq!(walk(&map, Layer::Normal, "d"), Walk::Unbound);
    assert_eq!(walk(&map, Layer::Normal, "dd"), Walk::Unbound);
}

#[test]
fn custom_mappings_flow_to_inheriting_layers() {
    let mut map = Keymap::vim();
    map.bind_spec(Layer::Normal, "j", Binding::Motion(Motion::Up));
    assert_eq!(
        walk(&map, Layer::Operator, "j"),
        Walk::Bound(Binding::Motion(Motion::Up))
    );
}
