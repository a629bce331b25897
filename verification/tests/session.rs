use aeroshell::config::RootConfig;
use aeroshell::session::{
    append_shell_command, exported_variables, history_path, is_listed_shell,
};
use aeroshell::version::get_version_description;

#[test]
fn exported_colors_and_theme() {
    let mut config = RootConfig::default(None);
    config.colors.insert("straße".to_string(), "#010203".to_string());
    let vars = exported_variables(&config);
    assert_eq!(vars.len(), 13 + 8);
    assert_eq!(vars[0], ("AERO_COLOR_PINK".to_string(), "#FFC0CB".to_string()));
    assert_eq!(vars[4], ("AERO_COLOR_LIGHTPINK".to_string(), "#FFB6C1".to_string()));
    assert_eq!(vars[12], ("AERO_COLOR_STRASSE".to_string(), "#010203".to_string()));
    let theme: Vec<(String, String)> = [
        ("AERO_THEME_AUTOCOMPLETE", "grey"),
        ("AERO_THEME_TYPING", "lightpink"),
        ("AERO_THEME_TYPINGTEXT", "white"),
        ("AERO_THEME_HEADER", "pink"),
        ("AERO_THEME_SUBHEADER", "purple"),
        ("AERO_THEME_BODY", "white"),
        ("AERO_THEME_ACTIVE", "green"),
        ("AERO_THEME_DISABLE", "red"),
    ]
    .iter()
    .map(|(k, v)| (k.to_string(), v.to_string()))
    .collect();
    assert_eq!(vars[13..].to_vec(), theme);
}

#[test]
fn history_file() {
    assert_eq!(history_path(Some("/home/ada")), "/home/ada/.aeroshell_history");
    assert_eq!(history_path(Some("")), "/.aeroshell_history");
    assert_eq!(history_path(None), ".aeroshell_history");
}

#[test]
fn login_shells() {
    let contents = "# /etc/shells\n/bin/sh\n  /usr/bin/aeroshell  \r\n/bin/bash\n";
    assert!(is_listed_shell(contents, "/bin/sh"));
    assert!(is_listed_shell(contents, "/usr/bin/aeroshell"));
    assert!(is_listed_shell(contents, "/bin/bash"));
    assert!(!is_listed_shell(contents, "/bin/zsh"));
    assert!(!is_listed_shell(contents, "/bin"));
    assert!(!is_listed_shell(contents, ""));
    assert!(!is_listed_shell("", ""));
    assert!(is_listed_shell("\n", ""));
    assert!(is_listed_shell("/bin/sh", "/bin/sh"));
}

#[test]
fn login_shells_agree_with_lines() {
    for contents in ["", "\n", "a", "a\n", "a\n\n", "\na", " a \nb", "a\r\n", "\n\n"] {
        for path in ["", "a", "b"] {
            let expected = contents.lines().any(|line| line.trim() == path);
            assert_eq!(is_listed_shell(contents, path), expected, "{:?} {:?}", contents, path);
        }
    }
}

#[test]
fn command_that_adds_a_shell() {
    assert_eq!(
        append_shell_command("/usr/bin/aeroshell"),
        "echo '/usr/bin/aeroshell' >> /etc/shells"
    );
}

#[test]
fn version_descriptions() {
    assert_eq!(get_version_description("0.3.1-dev", "0.3.0", true), "v0.3.1-dev (Dev Build)");
    assert_eq!(get_version_description("0.3.1-dev", "0.3.0", false), "v0.3.0 (Stable)");
    assert_eq!(get_version_description("", "", false), "v (Stable)");
}
