use aeroshell::config::{Config, Environment};
use aeroshell::prompt::{format_prompt, render, Bindings};
use aeroshell::string_map::StringMap;

fn bindings() -> Bindings {
    Bindings {
        username: "testuser".to_string(),
        hostname: "box".to_string(),
        directory: "~/src".to_string(),
        time: "12:34:56".to_string(),
    }
}

fn environment() -> Environment {
    Environment {
        hostname: Some("box".to_string()),
        home: Some("/home/testuser".to_string()),
        current_dir: "/home/testuser/src".to_string(),
    }
}

#[test]
fn test_variable_replacement() {
    let config = Config {
        prompt_template: "".to_string(),
        username: "testuser".to_string(),
        editor: "nano".to_string(),
        colors: StringMap::new(),
    };

    let res = format_prompt("Hello %username%", &config, &environment());
    assert_eq!(res, "Hello testuser");
}

#[test]
fn test_custom_color() {
    let mut colors = StringMap::new();
    colors.insert("mypink".to_string(), "#FF00FF".to_string()); // Magenta
    let config = Config {
        prompt_template: "".to_string(),
        username: "test".to_string(),
        editor: "nano".to_string(),
        colors,
    };

    let res = format_prompt("!mypink!Hi", &config, &environment());
    // Expect ANSI 24-bit for FF00FF: 255;0;255
    assert_eq!(res, "\x1B[38;2;255;0;255mHi");
}

#[test]
fn render_replaces_username() {
    assert_eq!(render("Hello %username%", &bindings(), &StringMap::new()), "Hello testuser");
}

#[test]
fn render_named_color_and_reset() {
    assert_eq!(render("!red!Hello!reset!", &bindings(), &StringMap::new()), "\x1B[31mHello\x1B[0m");
}

#[test]
fn render_styles_in_declaration_order() {
    assert_eq!(render("!bold,blue!Text", &bindings(), &StringMap::new()), "\x1B[1m\x1B[34mText");
}

#[test]
fn render_unknown_tag_emits_nothing() {
    assert_eq!(render("!invalid!", &bindings(), &StringMap::new()), "");
}

#[test]
fn render_unterminated_tag_is_literal() {
    assert_eq!(render("!notatag", &bindings(), &StringMap::new()), "!notatag");
}

#[test]
fn render_palette_color() {
    let mut palette = StringMap::new();
    palette.insert("mypink".to_string(), "#FF00FF".to_string());
    assert_eq!(render("!mypink!Hi", &bindings(), &palette), "\x1B[38;2;255;0;255mHi");
}

fn plain_config(username: &str) -> Config {
    Config {
        prompt_template: "".to_string(),
        username: username.to_string(),
        editor: "nano".to_string(),
        colors: StringMap::new(),
    }
}

#[test]
fn plain_templates_render_unchanged() {
    let mut palette = StringMap::new();
    palette.insert("red".to_string(), "#FF0000".to_string());
    for template in [
        "",
        "$ ",
        "plain text",
        "100% sure",
        "%user% %name% %%",
        "%username",
        "username%",
        "%Username%",
        "one ! only",
        "!",
        "trailing!",
        "héllo → wörld",
    ] {
        assert_eq!(render(template, &bindings(), &palette), template);
    }
}

#[test]
fn every_variable_is_replaced_everywhere() {
    assert_eq!(
        render("%username%@%hostname%:%directory% %time% %username%", &bindings(), &StringMap::new()),
        "testuser@box:~/src 12:34:56 testuser"
    );
    assert_eq!(render("%username%%username%", &bindings(), &StringMap::new()), "testusertestuser");
}

#[test]
fn variables_are_replaced_in_turn() {
    // A value that holds a later marker is expanded by the later pass; one
    // that holds an earlier marker is not.
    let values = Bindings {
        username: "%time%".to_string(),
        hostname: "%username%".to_string(),
        directory: "d".to_string(),
        time: "t".to_string(),
    };
    assert_eq!(render("%username% %hostname%", &values, &StringMap::new()), "t %username%");
}

#[test]
fn values_can_form_tags() {
    let values = Bindings {
        username: "a!red!b".to_string(),
        hostname: "!".to_string(),
        directory: "d".to_string(),
        time: "t".to_string(),
    };
    assert_eq!(render("%username%", &values, &StringMap::new()), "a\x1B[31mb");
    assert_eq!(render("%hostname%bold%hostname%x", &values, &StringMap::new()), "\x1B[1mx");
}

#[test]
fn markers_inside_a_tag_are_replaced_first() {
    assert_eq!(render("!%username%!x", &bindings(), &StringMap::new()), "x");
    let mut palette = StringMap::new();
    palette.insert("testuser".to_string(), "#010203".to_string());
    assert_eq!(render("!%username%!x", &bindings(), &palette), "\x1B[38;2;1;2;3mx");
}

#[test]
fn empty_tag_emits_nothing() {
    assert_eq!(render("a!!b", &bindings(), &StringMap::new()), "ab");
    assert_eq!(render("!!", &bindings(), &StringMap::new()), "");
    assert_eq!(render("!,, ,!", &bindings(), &StringMap::new()), "");
}

#[test]
fn consecutive_tags_concatenate() {
    assert_eq!(
        render("!bold!!red!x!reset!!reset!", &bindings(), &StringMap::new()),
        "\x1B[1m\x1B[31mx\x1B[0m\x1B[0m"
    );
}

#[test]
fn names_in_a_tag_are_trimmed() {
    assert_eq!(
        render("! bold ,\tunderline , italic!x", &bindings(), &StringMap::new()),
        "\x1B[1m\x1B[4m\x1B[3mx"
    );
    assert_eq!(render("!re d!x", &bindings(), &StringMap::new()), "x");
}

#[test]
fn all_builtin_names() {
    let cases = [
        ("reset", "\x1B[0m"),
        ("bold", "\x1B[1m"),
        ("italic", "\x1B[3m"),
        ("underline", "\x1B[4m"),
        ("black", "\x1B[30m"),
        ("red", "\x1B[31m"),
        ("green", "\x1B[32m"),
        ("yellow", "\x1B[33m"),
        ("blue", "\x1B[34m"),
        ("magenta", "\x1B[35m"),
        ("cyan", "\x1B[36m"),
        ("white", "\x1B[37m"),
        ("grey", "\x1B[90m"),
        ("gray", "\x1B[90m"),
    ];
    for (name, escape) in cases {
        let template = format!("!{}!", name);
        assert_eq!(render(&template, &bindings(), &StringMap::new()), escape);
    }
    assert_eq!(render("!RED!!Bold!", &bindings(), &StringMap::new()), "");
}

#[test]
fn inline_hex_colors() {
    assert_eq!(render("!#FF8000!x", &bindings(), &StringMap::new()), "\x1B[38;2;255;128;0mx");
    assert_eq!(render("!bold,#000000!x", &bindings(), &StringMap::new()), "\x1B[1m\x1B[38;2;0;0;0mx");
    // Without the `#` a hex triplet is only a name.
    assert_eq!(render("!FF8000!x", &bindings(), &StringMap::new()), "x");
    assert_eq!(render("!#FF80!x", &bindings(), &StringMap::new()), "x");
    assert_eq!(render("!#GGGGGG!x", &bindings(), &StringMap::new()), "x");
    // Only one `#` is taken off the triplet.
    assert_eq!(render("!##FF8000!x", &bindings(), &StringMap::new()), "x");
}

#[test]
fn palette_shadows_builtin_names() {
    let mut palette = StringMap::new();
    palette.insert("red".to_string(), "#010203".to_string());
    palette.insert("bold".to_string(), "#040506".to_string());
    palette.insert("blue".to_string(), "not a color".to_string());
    palette.insert("#123456".to_string(), "#654321".to_string());
    assert_eq!(render("!red!", &bindings(), &palette), "\x1B[38;2;1;2;3m");
    assert_eq!(render("!bold!", &bindings(), &palette), "\x1B[38;2;4;5;6m");
    // A malformed palette entry falls back to the built-in name.
    assert_eq!(render("!blue!", &bindings(), &palette), "\x1B[34m");
    assert_eq!(render("!#123456!", &bindings(), &palette), "\x1B[38;2;101;67;33m");
    palette.insert("twice".to_string(), "##654321".to_string());
    assert_eq!(render("!twice!", &bindings(), &palette), "");
}

#[test]
fn unterminated_tag_keeps_everything_after_it() {
    assert_eq!(render("a!red!b!bold,c", &bindings(), &StringMap::new()), "a\x1B[31mb!bold,c");
    assert_eq!(render("x!", &bindings(), &StringMap::new()), "x!");
    assert_eq!(render("!a!!", &bindings(), &StringMap::new()), "!");
}

#[test]
fn default_template() {
    let root = aeroshell::config::RootConfig::default(Some("ada".to_string()));
    let values = Bindings {
        username: "ada".to_string(),
        hostname: "box".to_string(),
        directory: "~/src".to_string(),
        time: "00:00:00".to_string(),
    };
    assert_eq!(
        render(&root.theme.prompt_template, &values, &root.colors),
        "\x1B[38;2;0;128;128maeroshell@\x1B[38;2;255;182;193mada\x1B[38;2;255;255;255m<>\x1B[38;2;128;0;128m~/src\x1B[38;2;50;205;50m:\x1B[0m "
    );
}

#[test]
fn prompt_shows_host_and_directory() {
    let config = plain_config("ada");
    let inside = Environment {
        hostname: Some("box".to_string()),
        home: Some("/home/ada".to_string()),
        current_dir: "/home/ada/src".to_string(),
    };
    assert_eq!(format_prompt("%hostname%:%directory%", &config, &inside), "box:~/src");

    let at_home = Environment { current_dir: "/home/ada".to_string(), ..inside.clone() };
    assert_eq!(format_prompt("%directory%", &config, &at_home), "~");

    let outside = Environment { current_dir: "/etc".to_string(), ..inside.clone() };
    assert_eq!(format_prompt("%directory%", &config, &outside), "/etc");

    // The home path is replaced as a beginning of the text, not of the path.
    let sibling = Environment { current_dir: "/home/adams".to_string(), ..inside.clone() };
    assert_eq!(format_prompt("%directory%", &config, &sibling), "~ms");

    let twice = Environment { current_dir: "/home/ada/home/ada".to_string(), ..inside.clone() };
    assert_eq!(format_prompt("%directory%", &config, &twice), "~/home/ada");

    let bare = Environment { hostname: None, home: None, current_dir: "/home/ada".to_string() };
    assert_eq!(format_prompt("%hostname%:%directory%", &config, &bare), "localhost:/home/ada");

    let empty_home =
        Environment { hostname: None, home: Some("".to_string()), current_dir: "/x".to_string() };
    assert_eq!(format_prompt("%directory%", &config, &empty_home), "/x");
}

#[test]
fn prompt_shows_the_time_of_day() {
    let shown = format_prompt("%time%", &plain_config("ada"), &environment());
    let bytes = shown.as_bytes();
    assert_eq!(bytes.len(), 8);
    assert_eq!(bytes[2], b':');
    assert_eq!(bytes[5], b':');
    let number = |i: usize| -> u32 {
        assert!(bytes[i].is_ascii_digit() && bytes[i + 1].is_ascii_digit());
        ((bytes[i] - b'0') * 10 + (bytes[i + 1] - b'0')) as u32
    };
    assert!(number(0) <= 23);
    assert!(number(3) <= 59);
    assert!(number(6) <= 60);
}

/// Every string over `alphabet` of at most `max` characters.
fn strings_over(alphabet: &[char], max: usize) -> Vec<String> {
    let mut all = vec![String::new()];
    let mut last = vec![String::new()];
    for _ in 0..max {
        let mut next = Vec::new();
        for s in &last {
            for c in alphabet {
                let mut t = s.clone();
                t.push(*c);
                next.push(t);
            }
        }
        all.extend(next.iter().cloned());
        last = next;
    }
    all
}

/// What one name of a tag contributes, by a table.
fn escape_of(name: &str) -> String {
    match name {
        "r" => "\x1B[38;2;1;2;3m".to_string(),
        "bold" => "\x1B[1m".to_string(),
        "red" => "\x1B[31m".to_string(),
        _ => String::new(),
    }
}

#[test]
fn tags_agree_with_splitting_at_the_marks() {
    let mut palette = StringMap::new();
    palette.insert("r".to_string(), "#010203".to_string());
    let values = Bindings {
        username: "u".to_string(),
        hostname: "h".to_string(),
        directory: "d".to_string(),
        time: "t".to_string(),
    };
    for template in strings_over(&['!', 'r', ',', ' ', 'x'], 6) {
        let pieces: Vec<&str> = template.split('!').collect();
        let mut expected = String::new();
        for (i, piece) in pieces.iter().enumerate() {
            if i % 2 == 0 {
                expected.push_str(piece);
            } else if i + 1 < pieces.len() {
                for name in piece.split(',') {
                    expected.push_str(&escape_of(name.trim()));
                }
            } else {
                expected.push('!');
                expected.push_str(piece);
            }
        }
        assert_eq!(render(&template, &values, &palette), expected, "{:?}", template);
    }
}

#[test]
fn variables_agree_with_replacing_in_turn() {
    let values = Bindings {
        username: "%time%".to_string(),
        hostname: "%".to_string(),
        directory: "username".to_string(),
        time: "".to_string(),
    };
    let markers = ["%username%", "%hostname%", "%directory%", "%time%", "%", "a"];
    for a in markers {
        for b in markers {
            for c in markers {
                let template = format!("{}{}{}", a, b, c);
                let expected = template
                    .replace("%username%", &values.username)
                    .replace("%hostname%", &values.hostname)
                    .replace("%directory%", &values.directory)
                    .replace("%time%", &values.time);
                assert_eq!(render(&template, &values, &StringMap::new()), expected);
            }
        }
    }
}
