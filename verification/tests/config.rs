use aeroshell::config::{commented_config, get_app_root, get_config_path, join, RootConfig};
use aeroshell::string_map::StringMap;

#[test]
fn default_configuration() {
    let config = RootConfig::default(Some("ada".to_string()));
    assert_eq!(config.config.username, "ada");
    assert_eq!(config.config.editor, "nano");
    assert_eq!(
        config.theme.prompt_template,
        "!teal!aeroshell@!lightpink!%username%!white!<>!purple!%directory%!green!:!reset! "
    );
    assert_eq!(config.theme.autocomplete, "grey");
    assert_eq!(config.theme.typing, "lightpink");
    assert_eq!(config.theme.typingtext, "white");
    assert_eq!(config.theme.header, "pink");
    assert_eq!(config.theme.subheader, "purple");
    assert_eq!(config.theme.body, "white");
    assert_eq!(config.theme.active, "green");
    assert_eq!(config.theme.disable, "red");

    let colors = [
        ("pink", "#FFC0CB"),
        ("white", "#FFFFFF"),
        ("purple", "#800080"),
        ("teal", "#008080"),
        ("lightpink", "#FFB6C1"),
        ("lime", "#00FF00"),
        ("orange", "#FFA500"),
        ("green", "#32CD32"),
        ("red", "#FF0000"),
        ("grey", "#808080"),
        ("blue", "#0000FF"),
        ("yellow", "#FFFF00"),
    ];
    assert_eq!(config.colors.len(), colors.len());
    for (name, hex) in colors {
        assert_eq!(config.colors.get(name), Some(&hex.to_string()));
    }

    let files = [
        ("directory", "blue"),
        ("executable", "orange"),
        ("python", "teal"),
        ("shellscript", "lime"),
        ("rust", "red"),
        ("javascript", "yellow"),
        ("toml", "pink"),
        ("json", "pink"),
        ("default", "white"),
        ("file.zip", "pink"),
        ("file.iso", "pink"),
    ];
    assert_eq!(config.theme.files.len(), files.len());
    for (key, color) in files {
        assert_eq!(config.theme.files.get(key), Some(&color.to_string()));
    }
}

#[test]
fn default_user_name() {
    assert_eq!(RootConfig::default(None).config.username, "user");
}

#[test]
fn prompt_config_keeps_what_the_prompt_reads() {
    let root = RootConfig::default(Some("ada".to_string()));
    let config = root.prompt_config();
    assert_eq!(config.username, "ada");
    assert_eq!(config.editor, "nano");
    assert_eq!(config.prompt_template, root.theme.prompt_template);
    assert_eq!(config.colors.len(), 12);
    assert_eq!(config.colors.get("teal"), Some(&"#008080".to_string()));
}

#[test]
fn paths() {
    assert_eq!(get_app_root(Some("/home/ada")), "/home/ada/aeroshell");
    assert_eq!(get_app_root(Some("/home/ada/")), "/home/ada/aeroshell");
    assert_eq!(get_app_root(Some("")), "aeroshell");
    assert_eq!(get_app_root(None), ".");
    assert_eq!(get_config_path(Some("/home/ada")), "/home/ada/aeroshell/config/config.toml");
    assert_eq!(get_config_path(None), "./config/config.toml");
    assert_eq!(get_config_path(Some("/")), "/aeroshell/config/config.toml");
}

#[test]
fn join_agrees_with_the_standard_library() {
    let cases = [
        ("/a", "b"),
        ("/a/", "b"),
        ("", "b"),
        ("a", "/b"),
        (".", "config/config.toml"),
        ("/", "x"),
        ("a", ""),
        ("", ""),
    ];
    for (base, rel) in cases {
        let expected = std::path::PathBuf::from(base).join(rel);
        assert_eq!(join(base, rel), expected.to_string_lossy());
    }
}

#[test]
fn string_map_behaves_as_a_map() {
    let mut map = StringMap::new();
    assert_eq!(map.len(), 0);
    assert_eq!(map.get("a"), None);
    assert!(!map.contains_key("a"));
    map.insert("a".to_string(), "1".to_string());
    map.insert("b".to_string(), "2".to_string());
    map.insert("a".to_string(), "3".to_string());
    assert_eq!(map.len(), 2);
    assert!(map.contains_key("a"));
    assert_eq!(map.get("a"), Some(&"3".to_string()));
    assert_eq!(map.get("b"), Some(&"2".to_string()));
    assert_eq!(map.get(""), None);
    assert_eq!(map.entry(0), (&"a".to_string(), &"3".to_string()));
    assert_eq!(map.entry(1), (&"b".to_string(), &"2".to_string()));
    let copy = map.clone();
    map.insert("b".to_string(), "4".to_string());
    assert_eq!(copy.get("b"), Some(&"2".to_string()));
    assert_eq!(copy.len(), 2);
}

#[test]
fn configuration_file_text() {
    let text = commented_config("[config]\nusername = \"ada\"\n");
    assert!(text.starts_with("# AeroShell Configuration\n# -----------------------\n# Color Selector\n"));
    assert!(text.ends_with("'file.zip' (for .zip).\n#\n[config]\nusername = \"ada\"\n\n"));
    assert_eq!(text.lines().count(), 22);
    assert_eq!(commented_config("").lines().filter(|l| l.starts_with('#')).count(), 19);
}
