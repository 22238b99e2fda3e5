use keymap::commands::{Command, CommandRegistry};
use keymap::document::Node;
use yaml_rust::{Yaml, YamlLoader};
use keymap::key::Key;
use keymap::key_map::{KeyMap, KeyMapError};
use keymap::key::KeyError;

fn node(y: &Yaml) -> Node {
    match y {
        Yaml::Hash(h) => Node::Mapping(h.iter().map(|(k, v)| (node(k), node(v))).collect()),
        Yaml::String(s) => Node::Text(s.clone()),
        _ => Node::Other,
    }
}

fn keymap_of_text(text: &str) -> Result<KeyMap, KeyMapError> {
    let yaml = YamlLoader::load_from_str(text).unwrap();
    let doc = node(&yaml[0]);
    KeyMap::from(&doc, &CommandRegistry::standard())
}

fn text(s: &str) -> Node {
    Node::Text(s.to_string())
}

#[test]
fn keymap_correctly_parses_yaml_character_keybindings() {
    let yaml_data = "normal:\n  k: cursor::move_up";
    let keymap = keymap_of_text(yaml_data).unwrap();

    let command = keymap.command_for("normal", &Key::Char('k')).expect(
        "Keymap doesn't contain command",
    );
    assert_eq!(command, Command::CursorMoveUp);
}

#[test]
fn keymap_correctly_parses_yaml_wildcard_character_keybindings() {
    let yaml_data = "normal:\n  _: cursor::move_up";
    let keymap = keymap_of_text(yaml_data).unwrap();

    let characters = vec!['a', 'b', 'c'];
    for c in characters.into_iter() {
        let command = keymap.command_for("normal", &Key::Char(c)).expect(
            "Keymap doesn't contain command",
        );
        assert_eq!(command, Command::CursorMoveUp);
    }
}

#[test]
fn keymap_correctly_prioritizes_character_over_wildcard_character_keybindings() {
    let yaml_data = "normal:\n  j: cursor::move_down\n  _: cursor::move_up";
    let keymap = keymap_of_text(yaml_data).unwrap();

    let char_command = keymap.command_for("normal", &Key::Char('j')).expect(
        "Keymap doesn't contain command",
    );
    assert_eq!(char_command, Command::CursorMoveDown);
    let wildcard_command = keymap.command_for("normal", &Key::Char('a')).expect(
        "Keymap doesn't contain command",
    );
    assert_eq!(wildcard_command, Command::CursorMoveUp);
}

#[test]
fn keymap_correctly_parses_yaml_control_keybindings() {
    let yaml_data = "normal:\n  ctrl-r: cursor::move_up";
    let keymap = keymap_of_text(yaml_data).unwrap();

    let command = keymap.command_for("normal", &Key::Ctrl('r')).expect(
        "Keymap doesn't contain command",
    );
    assert_eq!(command, Command::CursorMoveUp);
}

#[test]
fn keymap_correctly_parses_yaml_keyword_keybindings() {
    let mappings = vec![
        ("normal:\n  space: cursor::move_up", Key::Char(' '), Command::CursorMoveUp),
        ("normal:\n  backspace: cursor::move_up", Key::Backspace, Command::CursorMoveUp),
        ("normal:\n  left: cursor::move_up", Key::Left, Command::CursorMoveUp),
        ("normal:\n  right: cursor::move_up", Key::Right, Command::CursorMoveUp),
        ("normal:\n  up: cursor::move_up", Key::Up, Command::CursorMoveUp),
        ("normal:\n  down: cursor::move_up", Key::Down, Command::CursorMoveUp),
        ("normal:\n  home: cursor::move_up", Key::Home, Command::CursorMoveUp),
        ("normal:\n  end: cursor::move_up", Key::End, Command::CursorMoveUp),
        ("normal:\n  page_up: cursor::move_up", Key::PageUp, Command::CursorMoveUp),
        ("normal:\n  page_down: cursor::move_up", Key::PageDown, Command::CursorMoveUp),
        ("normal:\n  delete: cursor::move_up", Key::Delete, Command::CursorMoveUp),
        ("normal:\n  insert: cursor::move_up", Key::Insert, Command::CursorMoveUp),
        ("normal:\n  escape: cursor::move_up", Key::Esc, Command::CursorMoveUp),
        ("normal:\n  tab: cursor::move_up", Key::Tab, Command::CursorMoveUp),
        ("normal:\n  enter: cursor::move_up", Key::Enter, Command::CursorMoveUp),
    ];

    for (binding, key, command) in mappings {
        let keymap = keymap_of_text(binding).unwrap();

        let parsed_command = keymap.command_for("normal", &key).expect("Keymap doesn't contain command");
        assert_eq!(parsed_command, command);
    }
}

#[test]
fn keymap_correctly_loads_default_keybindings() {
    let keymap = KeyMap::default(&CommandRegistry::standard()).unwrap();

    let command = keymap.command_for("normal", &Key::Char('k')).expect(
        "Keymap doesn't contain command",
    );
    assert_eq!(command, Command::CursorMoveUp);
}

#[test]
fn keymap_correctly_merges_keybindings() {
    let yaml_data = "normal:\n  k: cursor::move_up\n  j: cursor::move_down";
    let mut keymap = keymap_of_text(yaml_data).unwrap();

    let other_yaml_data = "normal:\n  k: cursor::move_left\n  l: cursor::move_right";
    let other_keymap = keymap_of_text(other_yaml_data).unwrap();

    keymap.merge(other_keymap);

    let mut command = keymap.command_for("normal", &Key::Char('j')).expect(
        "Keymap doesn't contain original command",
    );
    assert_eq!(command, Command::CursorMoveDown);

    command = keymap.command_for("normal", &Key::Char('k')).expect(
        "Keymap doesn't contain overlapping command",
    );
    assert_eq!(command, Command::CursorMoveLeft);

    command = keymap.command_for("normal", &Key::Char('l')).expect(
        "Keymap doesn't contain other command",
    );
    assert_eq!(command, Command::CursorMoveRight);
}

#[test]
fn merge_drops_modes_the_receiver_lacks() {
    let mut keymap = keymap_of_text("normal:\n  ctrl-r: cursor::move_up").unwrap();
    let other = keymap_of_text(
        "normal:\n  ctrl-s: cursor::move_down\nunknown:\n  ctrl-l: cursor::move_right",
    )
    .unwrap();
    keymap.merge(other);
    assert_eq!(keymap.command_for("normal", &Key::Ctrl('r')), Some(Command::CursorMoveUp));
    assert_eq!(keymap.command_for("normal", &Key::Ctrl('s')), Some(Command::CursorMoveDown));
    assert_eq!(keymap.command_for("unknown", &Key::Ctrl('l')), None);
}

#[test]
fn merge_leaves_modes_the_other_lacks() {
    let mut keymap = keymap_of_text("normal:\n  k: cursor::move_up\ninsert:\n  k: buffer::insert_char").unwrap();
    let other = keymap_of_text("normal:\n  k: cursor::move_down").unwrap();
    keymap.merge(other);
    assert_eq!(keymap.command_for("normal", &Key::Char('k')), Some(Command::CursorMoveDown));
    assert_eq!(keymap.command_for("insert", &Key::Char('k')), Some(Command::BufferInsertChar));
}

#[test]
fn unknown_mode_has_no_bindings() {
    let keymap = keymap_of_text("normal:\n  _: cursor::move_up").unwrap();
    assert_eq!(keymap.command_for("insert", &Key::Char('a')), None);
}

#[test]
fn wildcard_does_not_cover_control_or_named_keys() {
    let keymap = keymap_of_text("normal:\n  _: cursor::move_up").unwrap();
    assert_eq!(keymap.command_for("normal", &Key::Ctrl('a')), None);
    assert_eq!(keymap.command_for("normal", &Key::Enter), None);
    assert_eq!(keymap.command_for("normal", &Key::Char('\u{e9}')), Some(Command::CursorMoveUp));
}

#[test]
fn unbound_character_without_wildcard_has_no_command() {
    let keymap = keymap_of_text("normal:\n  k: cursor::move_up").unwrap();
    assert_eq!(keymap.command_for("normal", &Key::Char('x')), None);
}

#[test]
fn unknown_command_fails_construction() {
    let r = keymap_of_text("normal:\n  k: cursor::move_up\n  j: cursor::no_such_command");
    assert_eq!(r.err(), Some(KeyMapError::UnknownCommand { mode: 0, binding: 1 }));
}

#[test]
fn document_that_is_not_a_mapping_fails() {
    let r = keymap_of_text("just some text");
    assert_eq!(r.err(), Some(KeyMapError::ModesNotMapping));
}

#[test]
fn mode_name_that_is_not_a_string_fails() {
    let doc = Node::Mapping(vec![(Node::Other, Node::Mapping(vec![]))]);
    let r = KeyMap::from(&doc, &CommandRegistry::standard());
    assert_eq!(r.err(), Some(KeyMapError::ModeNameNotText { mode: 0 }));
}

#[test]
fn mode_bindings_that_are_not_a_mapping_fail() {
    let r = keymap_of_text("normal:\n  k: cursor::move_up\ninsert: 5");
    assert_eq!(r.err(), Some(KeyMapError::BindingsNotMapping { mode: 1 }));
}

#[test]
fn key_that_is_not_a_string_fails() {
    let r = keymap_of_text("normal:\n  1: cursor::move_up");
    assert_eq!(r.err(), Some(KeyMapError::KeyNotText { mode: 0, binding: 0 }));
}

#[test]
fn command_that_is_not_a_string_fails() {
    let r = keymap_of_text("normal:\n  k: 7");
    assert_eq!(r.err(), Some(KeyMapError::CommandNotText { mode: 0, binding: 0 }));
}

#[test]
fn bad_modifier_fails_construction() {
    let r = keymap_of_text("normal:\n  k: cursor::move_up\n  alt-k: cursor::move_up");
    assert_eq!(
        r.err(),
        Some(KeyMapError::BadKey { mode: 0, binding: 1, reason: KeyError::InvalidModifier })
    );
}

#[test]
fn first_error_is_reported() {
    let r = keymap_of_text("normal:\n  ctrl-: cursor::move_up\n  k: cursor::nowhere");
    assert_eq!(
        r.err(),
        Some(KeyMapError::BadKey { mode: 0, binding: 0, reason: KeyError::InvalidKey })
    );
}

#[test]
fn later_binding_for_a_key_wins() {
    let doc = Node::Mapping(vec![(
        text("normal"),
        Node::Mapping(vec![
            (text("k"), text("cursor::move_up")),
            (text("k"), text("cursor::move_down")),
        ]),
    )]);
    let keymap = KeyMap::from(&doc, &CommandRegistry::standard()).unwrap();
    assert_eq!(keymap.command_for("normal", &Key::Char('k')), Some(Command::CursorMoveDown));
}

#[test]
fn later_mode_of_the_same_name_replaces_it() {
    let doc = Node::Mapping(vec![
        (text("normal"), Node::Mapping(vec![(text("k"), text("cursor::move_up"))])),
        (text("normal"), Node::Mapping(vec![(text("j"), text("cursor::move_down"))])),
    ]);
    let keymap = KeyMap::from(&doc, &CommandRegistry::standard()).unwrap();
    assert_eq!(keymap.command_for("normal", &Key::Char('k')), None);
    assert_eq!(keymap.command_for("normal", &Key::Char('j')), Some(Command::CursorMoveDown));
}

#[test]
fn empty_document_mapping_gives_empty_table() {
    let keymap = KeyMap::from(&Node::Mapping(vec![]), &CommandRegistry::standard()).unwrap();
    assert_eq!(keymap.command_for("normal", &Key::Char('k')), None);
}

#[test]
fn default_keymap_binds_insert_mode() {
    let keymap = KeyMap::default(&CommandRegistry::standard()).unwrap();
    assert_eq!(keymap.command_for("insert", &Key::Char('z')), Some(Command::BufferInsertChar));
    assert_eq!(keymap.command_for("insert", &Key::Esc), Some(Command::ApplicationSwitchToNormalMode));
    assert_eq!(keymap.command_for("normal", &Key::Ctrl('u')), Some(Command::ViewScrollUp));
}

#[test]
fn default_keymap_needs_its_commands() {
    let r = KeyMap::default(&CommandRegistry::new());
    assert_eq!(r.err(), Some(KeyMapError::UnknownCommand { mode: 0, binding: 0 }));
}

#[test]
fn mode_bindings_lists_a_modes_keys() {
    let keymap = keymap_of_text("normal:\n  k: cursor::move_up\n  ctrl-r: cursor::move_down\n  k: cursor::move_left").unwrap();
    let mut bindings = keymap.mode_bindings("normal").unwrap();
    bindings.sort_by_key(|b| format!("{:?}", b.0));
    assert_eq!(
        bindings,
        vec![(Key::Char('k'), Command::CursorMoveLeft), (Key::Ctrl('r'), Command::CursorMoveDown)]
    );
    assert_eq!(keymap.mode_bindings("insert"), None);
}

#[test]
fn default_keymap_lists_normal_mode() {
    let keymap = KeyMap::default(&CommandRegistry::standard()).unwrap();
    let bindings = keymap.mode_bindings("normal").unwrap();
    assert_eq!(bindings.len(), 17);
    assert!(bindings.contains(&(Key::Char('k'), Command::CursorMoveUp)));
}
