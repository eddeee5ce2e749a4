use helix_config::config::parse_config;
use helix_config::{
    default_keymap, merge_keys, merge_toml_values, Config, ConfigLoadError, CursorKind, EditorConfig,
    KeyTrie, Keymap, Mode, Setting,
};

fn load_test(config: &str) -> Config {
    Config::load(Ok(config.to_owned()), Err(ConfigLoadError::default())).unwrap()
}

fn missing() -> Result<String, ConfigLoadError> {
    Err(ConfigLoadError::Error("not found".to_owned()))
}

fn doc(text: &str) -> Result<String, ConfigLoadError> {
    Ok(text.to_owned())
}

fn lang<'a, T>(table: &'a [(String, T)], name: &str) -> Option<&'a T> {
    table.iter().rev().find(|(n, _)| n == name).map(|(_, v)| v)
}

fn command(keys: &Keymap, mode: Mode, key: &str) -> Option<String> {
    keys.get(mode).get(key)
}

fn table(entries: Vec<(&str, Setting)>) -> Setting {
    Setting::Table(entries.into_iter().map(|(k, v)| (k.to_owned(), v)).collect())
}

#[test]
fn parsing_keymaps_config_file() {
    let sample_keymaps = r#"
            [keys.insert]
            y = "move_line_down"
            S-C-a = "delete_selection"

            [keys.normal]
            A-F12 = "move_next_word_end"
        "#;

    let mut keys = default_keymap();
    let mut delta = Keymap::empty();
    delta.insert.bind("y", "move_line_down");
    delta.insert.bind("S-C-a", "delete_selection");
    delta.normal.bind("A-F12", "move_next_word_end");
    merge_keys(&mut keys, &delta);

    assert_eq!(
        load_test(sample_keymaps),
        Config {
            keys,
            ..Default::default()
        }
    );
}

#[test]
fn keys_resolve_to_correct_defaults() {
    // From an empty document
    let default_keys = load_test("").keys;
    assert_eq!(default_keys, default_keymap());

    // From the Default trait
    let default_keys = Config::default().keys;
    assert_eq!(default_keys, default_keymap());
}

#[test]
fn both_documents_missing_returns_the_global_error() {
    let r = Config::load(
        Err(ConfigLoadError::Error("global".to_owned())),
        Err(ConfigLoadError::Error("local".to_owned())),
    );
    assert_eq!(r, Err(ConfigLoadError::Error("global".to_owned())));
}

#[test]
fn empty_document_gives_defaults() {
    let c = load_test("");
    assert_eq!(c.keys, default_keymap());
    assert_eq!(c.editor, EditorConfig::default());
    assert_eq!(c.theme, None);
    assert!(c.theme_lang.is_empty());
    assert!(c.keys_lang.is_empty());
    assert!(c.editor_lang.is_empty());
    let local_only = Config::load(missing(), doc("")).unwrap();
    assert_eq!(local_only, Config::default());
}

#[test]
fn local_theme_wins() {
    let c = Config::load(doc("theme = \"dracula\""), doc("theme = \"nord\"")).unwrap();
    assert_eq!(c.theme, Some("nord".to_owned()));
    let c = Config::load(doc("theme = \"dracula\""), doc("")).unwrap();
    assert_eq!(c.theme, Some("dracula".to_owned()));
}

#[test]
fn keymap_layering_global_then_local() {
    let global = "[keys.insert]\ny = \"move_line_down\"\n";
    let local = "[keys.normal]\nA-F12 = \"move_next_word_end\"\n";
    let c = Config::load(doc(global), doc(local)).unwrap();
    assert_eq!(command(&c.keys, Mode::Insert, "y"), Some("move_line_down".to_owned()));
    assert_eq!(command(&c.keys, Mode::Normal, "A-F12"), Some("move_next_word_end".to_owned()));
    assert_eq!(command(&c.keys, Mode::Normal, "h"), Some("move_char_left".to_owned()));
    assert_eq!(command(&c.keys, Mode::Insert, "esc"), Some("normal_mode".to_owned()));
    assert_eq!(command(&c.keys, Mode::Select, "y"), None);

    let mut expected = default_keymap();
    let mut delta = Keymap::empty();
    delta.insert.bind("y", "move_line_down");
    delta.normal.bind("A-F12", "move_next_word_end");
    merge_keys(&mut expected, &delta);
    assert_eq!(c.keys, expected);
}

#[test]
fn local_binding_overrides_global_binding() {
    let c = Config::load(
        doc("[keys.normal]\nh = \"global_cmd\"\n"),
        doc("[keys.normal]\nh = \"local_cmd\"\n"),
    )
    .unwrap();
    assert_eq!(command(&c.keys, Mode::Normal, "h"), Some("local_cmd".to_owned()));
}

#[test]
fn single_document_matches_document_beside_empty_one() {
    let text = "theme = \"nord\"\n[keys.select]\nx = \"extend_line\"\n";
    let alone = Config::load(doc(text), missing()).unwrap();
    let beside_empty = Config::load(doc(text), doc("")).unwrap();
    assert_eq!(alone.theme, beside_empty.theme);
    assert_eq!(alone.keys, beside_empty.keys);
    assert_eq!(alone, beside_empty);
}

#[test]
fn deep_merge_stops_at_depth_boundary() {
    let deep = |leaf: Setting| {
        table(vec![("a", table(vec![("b", table(vec![("c", table(vec![("d", leaf)]))]))]))])
    };
    let left = deep(table(vec![("x", Setting::Int(1))]));
    let right = deep(table(vec![("y", Setting::Int(2))]));
    let merged = merge_toml_values(left, right, 3);
    // at depth four the right subtree replaces the left one whole
    assert_eq!(merged, deep(table(vec![("y", Setting::Int(2))])));

    let left = table(vec![("a", table(vec![("x", Setting::Int(1))]))]);
    let right = table(vec![("a", table(vec![("y", Setting::Int(2))]))]);
    let merged = merge_toml_values(left, right, 3);
    assert_eq!(
        merged,
        table(vec![("a", table(vec![("x", Setting::Int(1)), ("y", Setting::Int(2))]))])
    );
}

#[test]
fn deep_merge_with_itself_is_unchanged() {
    let make = || {
        table(vec![
            ("mouse", Setting::Bool(false)),
            ("shell", Setting::Array(vec![Setting::Str("sh".to_owned())])),
            ("cursor-shape", table(vec![("insert", Setting::Str("bar".to_owned()))])),
        ])
    };
    assert_eq!(merge_toml_values(make(), make(), 3), make());
}

#[test]
fn deep_merge_scalars_and_arrays_take_the_override() {
    let left = table(vec![("a", Setting::Array(vec![Setting::Int(1), Setting::Int(2)]))]);
    let right = table(vec![("a", Setting::Array(vec![Setting::Int(3)]))]);
    assert_eq!(
        merge_toml_values(left, right, 3),
        table(vec![("a", Setting::Array(vec![Setting::Int(3)]))])
    );
    assert_eq!(
        merge_toml_values(Setting::Int(1), Setting::Str("v".to_owned()), 3),
        Setting::Str("v".to_owned())
    );
    assert_eq!(
        merge_toml_values(table(vec![]), Setting::Int(4), 0),
        Setting::Int(4)
    );
}

#[test]
fn malformed_global_wins_over_valid_local() {
    let r = Config::load(doc("bogus = 1"), doc("theme = \"nord\""));
    assert!(matches!(r, Err(ConfigLoadError::BadConfig(_))));
    let r = Config::load(doc("theme = \"nord\""), doc("theme = "));
    assert!(matches!(r, Err(ConfigLoadError::BadConfig(_))));
    let r = Config::load(missing(), doc("[keys]\nvisual = {}\n"));
    assert!(matches!(r, Err(ConfigLoadError::BadConfig(_))));
}

#[test]
fn both_malformed_returns_the_global_error() {
    let r = Config::load(
        Err(ConfigLoadError::BadConfig("global".to_owned())),
        Err(ConfigLoadError::BadConfig("local".to_owned())),
    );
    assert_eq!(r, Err(ConfigLoadError::BadConfig("global".to_owned())));
    let r = Config::load(doc("theme = 1"), doc("unknown = true"));
    match r {
        Err(ConfigLoadError::BadConfig(m)) => assert!(m.contains("theme")),
        other => panic!("unexpected {:?}", other),
    }
}

#[test]
fn language_with_only_keys_is_isolated() {
    let text = r#"
        theme = "base"
        [[languages]]
        name = "rust"
        [languages.keys.insert]
        j = "insert_newline"
    "#;
    let c = load_test(text);
    assert_eq!(lang(&c.theme_lang, "rust"), None);
    assert_eq!(lang(&c.editor_lang, "rust"), None);
    let mut expected = default_keymap();
    let mut delta = Keymap::empty();
    delta.insert.bind("j", "insert_newline");
    merge_keys(&mut expected, &delta);
    assert_eq!(lang(&c.keys_lang, "rust"), Some(&expected));
}

#[test]
fn language_keys_layer_onto_resolved_base() {
    let global = "[keys.normal]\nq = \"global_q\"\n[[languages]]\nname = \"go\"\n[languages.keys.normal]\nw = \"go_w\"\n";
    let local = "[[languages]]\nname = \"go\"\ntheme = \"gruvbox\"\n[languages.keys.normal]\nw = \"local_w\"\ne = \"local_e\"\n";
    let c = Config::load(doc(global), doc(local)).unwrap();
    let go = lang(&c.keys_lang, "go").unwrap();
    assert_eq!(command(go, Mode::Normal, "q"), Some("global_q".to_owned()));
    assert_eq!(command(go, Mode::Normal, "w"), Some("local_w".to_owned()));
    assert_eq!(command(go, Mode::Normal, "e"), Some("local_e".to_owned()));
    assert_eq!(command(go, Mode::Normal, "h"), Some("move_char_left".to_owned()));
    assert_eq!(lang(&c.theme_lang, "go"), Some(&"gruvbox".to_owned()));
    assert_eq!(command(&c.keys, Mode::Normal, "w"), Some("move_next_word_start".to_owned()));
}

#[test]
fn language_theme_prefers_local_block() {
    let global = "[[languages]]\nname = \"c\"\ntheme = \"g\"\n[[languages]]\nname = \"d\"\ntheme = \"gd\"\n";
    let local = "[[languages]]\nname = \"c\"\ntheme = \"l\"\n";
    let c = Config::load(doc(global), doc(local)).unwrap();
    assert_eq!(lang(&c.theme_lang, "c"), Some(&"l".to_owned()));
    assert_eq!(lang(&c.theme_lang, "d"), Some(&"gd".to_owned()));
    assert!(c.keys_lang.is_empty());
    assert!(c.editor_lang.is_empty());
}

#[test]
fn repeated_language_block_last_wins() {
    let text = "[[languages]]\nname = \"c\"\ntheme = \"first\"\n[[languages]]\nname = \"c\"\ntheme = \"second\"\n";
    let c = load_test(text);
    assert_eq!(lang(&c.theme_lang, "c"), Some(&"second".to_owned()));
}

#[test]
fn editor_settings_are_read_with_defaults() {
    let c = load_test("[editor]\nscrolloff = 10\ntrue-color = true\n[editor.cursor-shape]\ninsert = \"bar\"\n");
    assert_eq!(c.editor.scrolloff, 10);
    assert_eq!(c.editor.scroll_lines, 3);
    assert!(c.editor.mouse);
    assert!(c.editor.true_color);
    assert_eq!(c.editor.cursor_shape.insert, CursorKind::Bar);
    assert_eq!(c.editor.cursor_shape.normal, CursorKind::Block);
}

#[test]
fn editor_settings_merge_deeply_across_documents() {
    let global = "[editor]\nmouse = false\n[editor.cursor-shape]\ninsert = \"bar\"\n";
    let local = "[editor]\nscroll-lines = -2\n[editor.cursor-shape]\nnormal = \"underline\"\n";
    let c = Config::load(doc(global), doc(local)).unwrap();
    assert!(!c.editor.mouse);
    assert_eq!(c.editor.scroll_lines, -2);
    assert_eq!(c.editor.cursor_shape.insert, CursorKind::Bar);
    assert_eq!(c.editor.cursor_shape.normal, CursorKind::Underline);
}

#[test]
fn language_editor_settings_merge_onto_base() {
    let text = "[editor]\nmouse = false\n[[languages]]\nname = \"rust\"\n[languages.editor]\nscrolloff = 2\n";
    let c = load_test(text);
    let rust = lang(&c.editor_lang, "rust").unwrap();
    assert_eq!(rust.scrolloff, 2);
    assert!(!rust.mouse);
    assert_eq!(c.editor.scrolloff, 5);
}

#[test]
fn invalid_editor_settings_are_fatal() {
    for text in [
        "[editor]\nmouse = 3\n",
        "[editor]\nunknown-option = true\n",
        "[editor]\nscrolloff = -1\n",
        "[editor.cursor-shape]\ninsert = \"triangle\"\n",
        "editor = 4\n",
        "[[languages]]\nname = \"rust\"\n[languages.editor]\nmouse = \"yes\"\n",
    ] {
        let r = Config::load(doc(text), missing());
        assert!(matches!(r, Err(ConfigLoadError::BadConfig(_))), "{}", text);
    }
}

#[test]
fn schema_violations_are_fatal() {
    for text in [
        "colour = \"red\"\n",
        "theme = 5\n",
        "[keys.normal]\nh = 1\n",
        "[keys.normal.g]\ng = \"goto_file_start\"\n",
        "[[languages]]\ntheme = \"x\"\n",
        "[[languages]]\nname = \"c\"\nindent = 4\n",
        "languages = 3\n",
        "not toml at all [",
    ] {
        let r = parse_config(text);
        assert!(matches!(r, Err(ConfigLoadError::BadConfig(_))), "{}", text);
    }
}

#[test]
fn parsed_document_holds_its_fields() {
    let raw = parse_config("theme = \"nord\"\n[keys.insert]\nk = \"c\"\n[editor]\nmouse = true\n").unwrap();
    assert_eq!(raw.theme, Some("nord".to_owned()));
    let keys = raw.keys.unwrap();
    assert_eq!(command(&keys, Mode::Insert, "k"), Some("c".to_owned()));
    assert_eq!(command(&keys, Mode::Normal, "k"), None);
    assert_eq!(raw.editor, Some(table(vec![("mouse", Setting::Bool(true))])));
    assert!(raw.languages.is_none());
}

#[test]
fn key_trie_equality_ignores_binding_order() {
    let mut a = KeyTrie::new();
    a.bind("x", "one");
    a.bind("y", "two");
    let mut b = KeyTrie::new();
    b.bind("y", "two");
    b.bind("x", "zero");
    b.bind("x", "one");
    assert_eq!(a, b);
    b.bind("z", "three");
    assert_ne!(a, b);
}

#[test]
fn error_text_is_kept() {
    assert_eq!(ConfigLoadError::BadConfig("bad".to_owned()).to_string(), "bad");
    assert!(matches!(ConfigLoadError::default(), ConfigLoadError::Error(_)));
}
