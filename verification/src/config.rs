//! The configuration that the prompt renderer and the commands read.

use crate::string_map::StringMap;
use crate::text::{from_chars, push_str, text_of, to_chars};
use vstd::prelude::*;

verus! {

/// The whole configuration, as the configuration file lays it out.
#[derive(Clone, Debug)]
pub struct RootConfig {
    pub config: ConfigSection,
    pub theme: ThemeSection,
    pub colors: StringMap,
}

/// Who uses the shell, and with which editor.
#[derive(Clone, Debug)]
pub struct ConfigSection {
    pub username: String,
    pub editor: String,
}

/// How the shell looks.
#[derive(Clone, Debug)]
pub struct ThemeSection {
    pub prompt_template: String,
    pub autocomplete: String,
    pub typing: String,
    pub typingtext: String,
    pub header: String,
    pub subheader: String,
    pub body: String,
    pub active: String,
    pub disable: String,
    pub files: StringMap,
}

/// What the prompt renderer reads of the configuration.
#[derive(Clone, Debug)]
pub struct Config {
    pub prompt_template: String,
    pub username: String,
    pub editor: String,
    pub colors: StringMap,
}

/// What the prompt renderer reads of the process environment.
#[derive(Clone, Debug)]
pub struct Environment {
    /// The host's name, where the environment gives one.
    pub hostname: Option<String>,
    /// The user's home directory, where the environment gives one.
    pub home: Option<String>,
    /// The working directory.
    pub current_dir: String,
}

/// The colors that a fresh configuration defines, by name.
pub open spec fn default_colors() -> Map<Seq<char>, Seq<char>> {
    Map::<Seq<char>, Seq<char>>::empty().insert("pink"@, "#FFC0CB"@).insert(
        "white"@,
        "#FFFFFF"@,
    ).insert("purple"@, "#800080"@).insert("teal"@, "#008080"@).insert(
        "lightpink"@,
        "#FFB6C1"@,
    ).insert("lime"@, "#00FF00"@).insert("orange"@, "#FFA500"@).insert("green"@, "#32CD32"@).insert(
        "red"@,
        "#FF0000"@,
    ).insert("grey"@, "#808080"@).insert("blue"@, "#0000FF"@).insert("yellow"@, "#FFFF00"@)
}

/// The color names that a fresh configuration gives to kinds of files.
pub open spec fn default_file_colors() -> Map<Seq<char>, Seq<char>> {
    Map::<Seq<char>, Seq<char>>::empty().insert("directory"@, "blue"@).insert(
        "executable"@,
        "orange"@,
    ).insert("python"@, "teal"@).insert("shellscript"@, "lime"@).insert("rust"@, "red"@).insert(
        "javascript"@,
        "yellow"@,
    ).insert("toml"@, "pink"@).insert("json"@, "pink"@).insert("default"@, "white"@).insert(
        "file.zip"@,
        "pink"@,
    ).insert("file.iso"@, "pink"@)
}

/// The names of the colors that a fresh configuration defines, in the order
/// in which it defines them.
pub open spec fn default_color_names() -> Seq<Seq<char>> {
    seq![
        "pink"@,
        "white"@,
        "purple"@,
        "teal"@,
        "lightpink"@,
        "lime"@,
        "orange"@,
        "green"@,
        "red"@,
        "grey"@,
        "blue"@,
        "yellow"@,
    ]
}

/// The kinds of files that a fresh configuration gives a color, in the
/// order in which it names them.
pub open spec fn default_file_kinds() -> Seq<Seq<char>> {
    seq![
        "directory"@,
        "executable"@,
        "python"@,
        "shellscript"@,
        "rust"@,
        "javascript"@,
        "toml"@,
        "json"@,
        "default"@,
        "file.zip"@,
        "file.iso"@,
    ]
}

/// The prompt template of a fresh configuration.
pub open spec fn default_prompt_template() -> Seq<char> {
    "!teal!aeroshell@!lightpink!%username%!white!<>!purple!%directory%!green!:!reset! "@
}

/// How the keys of a fresh configuration are spelled; it follows that no
/// two of the color names are equal, and no two of the kinds of files.
proof fn lemma_default_keys_spelled()
    ensures
        "pink"@ == seq!['p', 'i', 'n', 'k'],
        "white"@ == seq!['w', 'h', 'i', 't', 'e'],
        "purple"@ == seq!['p', 'u', 'r', 'p', 'l', 'e'],
        "teal"@ == seq!['t', 'e', 'a', 'l'],
        "lightpink"@ == seq!['l', 'i', 'g', 'h', 't', 'p', 'i', 'n', 'k'],
        "lime"@ == seq!['l', 'i', 'm', 'e'],
        "orange"@ == seq!['o', 'r', 'a', 'n', 'g', 'e'],
        "green"@ == seq!['g', 'r', 'e', 'e', 'n'],
        "red"@ == seq!['r', 'e', 'd'],
        "grey"@ == seq!['g', 'r', 'e', 'y'],
        "blue"@ == seq!['b', 'l', 'u', 'e'],
        "yellow"@ == seq!['y', 'e', 'l', 'l', 'o', 'w'],
        "directory"@ == seq!['d', 'i', 'r', 'e', 'c', 't', 'o', 'r', 'y'],
        "executable"@ == seq!['e', 'x', 'e', 'c', 'u', 't', 'a', 'b', 'l', 'e'],
        "python"@ == seq!['p', 'y', 't', 'h', 'o', 'n'],
        "shellscript"@ == seq!['s', 'h', 'e', 'l', 'l', 's', 'c', 'r', 'i', 'p', 't'],
        "rust"@ == seq!['r', 'u', 's', 't'],
        "javascript"@ == seq!['j', 'a', 'v', 'a', 's', 'c', 'r', 'i', 'p', 't'],
        "toml"@ == seq!['t', 'o', 'm', 'l'],
        "json"@ == seq!['j', 's', 'o', 'n'],
        "default"@ == seq!['d', 'e', 'f', 'a', 'u', 'l', 't'],
        "file.zip"@ == seq!['f', 'i', 'l', 'e', '.', 'z', 'i', 'p'],
        "file.iso"@ == seq!['f', 'i', 'l', 'e', '.', 'i', 's', 'o'],
{
    reveal_strlit("pink");
    reveal_strlit("white");
    reveal_strlit("purple");
    reveal_strlit("teal");
    reveal_strlit("lightpink");
    reveal_strlit("lime");
    reveal_strlit("orange");
    reveal_strlit("green");
    reveal_strlit("red");
    reveal_strlit("grey");
    reveal_strlit("blue");
    reveal_strlit("yellow");
    reveal_strlit("directory");
    reveal_strlit("executable");
    reveal_strlit("python");
    reveal_strlit("shellscript");
    reveal_strlit("rust");
    reveal_strlit("javascript");
    reveal_strlit("toml");
    reveal_strlit("json");
    reveal_strlit("default");
    reveal_strlit("file.zip");
    reveal_strlit("file.iso");
    assert("pink"@ =~= seq!['p', 'i', 'n', 'k']);
    assert("white"@ =~= seq!['w', 'h', 'i', 't', 'e']);
    assert("purple"@ =~= seq!['p', 'u', 'r', 'p', 'l', 'e']);
    assert("teal"@ =~= seq!['t', 'e', 'a', 'l']);
    assert("lightpink"@ =~= seq!['l', 'i', 'g', 'h', 't', 'p', 'i', 'n', 'k']);
    assert("lime"@ =~= seq!['l', 'i', 'm', 'e']);
    assert("orange"@ =~= seq!['o', 'r', 'a', 'n', 'g', 'e']);
    assert("green"@ =~= seq!['g', 'r', 'e', 'e', 'n']);
    assert("red"@ =~= seq!['r', 'e', 'd']);
    assert("grey"@ =~= seq!['g', 'r', 'e', 'y']);
    assert("blue"@ =~= seq!['b', 'l', 'u', 'e']);
    assert("yellow"@ =~= seq!['y', 'e', 'l', 'l', 'o', 'w']);
    assert("directory"@ =~= seq!['d', 'i', 'r', 'e', 'c', 't', 'o', 'r', 'y']);
    assert("executable"@ =~= seq!['e', 'x', 'e', 'c', 'u', 't', 'a', 'b', 'l', 'e']);
    assert("python"@ =~= seq!['p', 'y', 't', 'h', 'o', 'n']);
    assert("shellscript"@ =~= seq!['s', 'h', 'e', 'l', 'l', 's', 'c', 'r', 'i', 'p', 't']);
    assert("rust"@ =~= seq!['r', 'u', 's', 't']);
    assert("javascript"@ =~= seq!['j', 'a', 'v', 'a', 's', 'c', 'r', 'i', 'p', 't']);
    assert("toml"@ =~= seq!['t', 'o', 'm', 'l']);
    assert("json"@ =~= seq!['j', 's', 'o', 'n']);
    assert("default"@ =~= seq!['d', 'e', 'f', 'a', 'u', 'l', 't']);
    assert("file.zip"@ =~= seq!['f', 'i', 'l', 'e', '.', 'z', 'i', 'p']);
    assert("file.iso"@ =~= seq!['f', 'i', 'l', 'e', '.', 'i', 's', 'o']);
}

impl RootConfig {
    /// Whether this is the configuration that a user named `username`
    /// starts with.
    pub open spec fn is_default_for(self, username: Seq<char>) -> bool {
        &&& self.config.username@ == username
        &&& self.config.editor@ == "nano"@
        &&& self.theme.prompt_template@ == default_prompt_template()
        &&& self.theme.autocomplete@ == "grey"@
        &&& self.theme.typing@ == "lightpink"@
        &&& self.theme.typingtext@ == "white"@
        &&& self.theme.header@ == "pink"@
        &&& self.theme.subheader@ == "purple"@
        &&& self.theme.body@ == "white"@
        &&& self.theme.active@ == "green"@
        &&& self.theme.disable@ == "red"@
        &&& self.theme.files@ == default_file_colors()
        &&& self.theme.files.keys() == default_file_kinds()
        &&& self.colors@ == default_colors()
        &&& self.colors.keys() == default_color_names()
    }

    /// The configuration that a user starts with. `username` is the user's
    /// name where the environment gives one; without it the name is `user`.
    pub fn default(username: Option<String>) -> (c: RootConfig)
        ensures
            c.is_default_for(
                match username {
                    Some(name) => name@,
                    None => "user"@,
                },
            ),
    {
        let username = match username {
            Some(name) => name,
            None => "user".to_owned(),
        };
        proof {
            lemma_default_keys_spelled();
        }
        let mut colors = StringMap::new();
        colors.insert("pink".to_owned(), "#FFC0CB".to_owned());
        assert(colors.keys() == default_color_names().take(1));
        colors.insert("white".to_owned(), "#FFFFFF".to_owned());
        assert(colors.keys() == default_color_names().take(2));
        colors.insert("purple".to_owned(), "#800080".to_owned());
        assert(colors.keys() == default_color_names().take(3));
        colors.insert("teal".to_owned(), "#008080".to_owned());
        assert(colors.keys() == default_color_names().take(4));
        colors.insert("lightpink".to_owned(), "#FFB6C1".to_owned());
        assert(colors.keys() == default_color_names().take(5));
        colors.insert("lime".to_owned(), "#00FF00".to_owned());
        assert(colors.keys() == default_color_names().take(6));
        colors.insert("orange".to_owned(), "#FFA500".to_owned());
        assert(colors.keys() == default_color_names().take(7));
        colors.insert("green".to_owned(), "#32CD32".to_owned());
        assert(colors.keys() == default_color_names().take(8));
        colors.insert("red".to_owned(), "#FF0000".to_owned());
        assert(colors.keys() == default_color_names().take(9));
        colors.insert("grey".to_owned(), "#808080".to_owned());
        assert(colors.keys() == default_color_names().take(10));
        colors.insert("blue".to_owned(), "#0000FF".to_owned());
        assert(colors.keys() == default_color_names().take(11));
        colors.insert("yellow".to_owned(), "#FFFF00".to_owned());
        assert(colors.keys() == default_color_names().take(12));
        assert(default_color_names().take(12) == default_color_names());

        let mut files = StringMap::new();
        files.insert("directory".to_owned(), "blue".to_owned());
        assert(files.keys() == default_file_kinds().take(1));
        files.insert("executable".to_owned(), "orange".to_owned());
        assert(files.keys() == default_file_kinds().take(2));
        files.insert("python".to_owned(), "teal".to_owned());
        assert(files.keys() == default_file_kinds().take(3));
        files.insert("shellscript".to_owned(), "lime".to_owned());
        assert(files.keys() == default_file_kinds().take(4));
        files.insert("rust".to_owned(), "red".to_owned());
        assert(files.keys() == default_file_kinds().take(5));
        files.insert("javascript".to_owned(), "yellow".to_owned());
        assert(files.keys() == default_file_kinds().take(6));
        files.insert("toml".to_owned(), "pink".to_owned());
        assert(files.keys() == default_file_kinds().take(7));
        files.insert("json".to_owned(), "pink".to_owned());
        assert(files.keys() == default_file_kinds().take(8));
        files.insert("default".to_owned(), "white".to_owned());
        assert(files.keys() == default_file_kinds().take(9));
        files.insert("file.zip".to_owned(), "pink".to_owned());
        assert(files.keys() == default_file_kinds().take(10));
        files.insert("file.iso".to_owned(), "pink".to_owned());
        assert(files.keys() == default_file_kinds().take(11));
        assert(default_file_kinds().take(11) == default_file_kinds());

        RootConfig {
            config: ConfigSection { username, editor: "nano".to_owned() },
            theme: ThemeSection {
                prompt_template:
                    "!teal!aeroshell@!lightpink!%username%!white!<>!purple!%directory%!green!:!reset! ".to_owned(),
                autocomplete: "grey".to_owned(),
                typing: "lightpink".to_owned(),
                typingtext: "white".to_owned(),
                header: "pink".to_owned(),
                subheader: "purple".to_owned(),
                body: "white".to_owned(),
                active: "green".to_owned(),
                disable: "red".to_owned(),
                files,
            },
            colors,
        }
    }

    /// What the prompt renderer reads of this configuration.
    pub fn prompt_config(&self) -> (c: Config)
        ensures
            c.prompt_template@ == self.theme.prompt_template@,
            c.username@ == self.config.username@,
            c.editor@ == self.config.editor@,
            c.colors@ == self.colors@,
    {
        Config {
            prompt_template: self.theme.prompt_template.clone(),
            username: self.config.username.clone(),
            editor: self.config.editor.clone(),
            colors: self.colors.duplicate(),
        }
    }
}

/// `base` with the path `rel` added below it: `rel` alone where it starts
/// at the root; else `base`, a `/` unless `base` is empty or ends in one,
/// and `rel`.
pub open spec fn join_path(base: Seq<char>, rel: Seq<char>) -> Seq<char> {
    if rel.len() > 0 && rel[0] == '/' {
        rel
    } else if base.len() == 0 || base.last() == '/' {
        base + rel
    } else {
        base + seq!['/'] + rel
    }
}

/// The directory that holds the shell's files: `aeroshell` below the home
/// directory, or `.` without a home directory.
pub open spec fn app_root(home: Option<Seq<char>>) -> Seq<char> {
    match home {
        Some(h) => join_path(h, "aeroshell"@),
        None => "."@,
    }
}

/// The path of the configuration file: `config/config.toml` below
/// [`app_root`].
pub open spec fn config_path(home: Option<Seq<char>>) -> Seq<char> {
    join_path(app_root(home), "config/config.toml"@)
}

/// Computes [`join_path`].
pub fn join(base: &str, rel: &str) -> (s: String)
    ensures
        s@ == join_path(base@, rel@),
{
    let b = to_chars(base);
    let r = to_chars(rel);
    if r.len() > 0 && r[0] == '/' {
        return from_chars(&r);
    }
    let mut out: Vec<char> = Vec::new();
    push_str(&mut out, base);
    if b.len() > 0 && b[b.len() - 1] != '/' {
        out.push('/');
    }
    push_str(&mut out, rel);
    from_chars(&out)
}

/// The directory that holds the shell's files, for the home directory that
/// the environment gives: see [`app_root`].
pub fn get_app_root(home: Option<&str>) -> (s: String)
    ensures
        s@ == app_root(text_of(home)),
{
    match home {
        Some(h) => join(h, "aeroshell"),
        None => ".".to_owned(),
    }
}

/// The path of the configuration file, for the home directory that the
/// environment gives: see [`config_path`].
pub fn get_config_path(home: Option<&str>) -> (s: String)
    ensures
        s@ == config_path(text_of(home)),
{
    let root = get_app_root(home);
    join(root.as_str(), "config/config.toml")
}

/// The comment that stands at the top of the configuration file.
pub open spec fn config_header() -> Seq<char> {
    "# AeroShell Configuration\n# -----------------------\n# Color Selector\n# Define custom colors here using hex codes (e.g. #RRGGBB)\n# usage in prompt: !colorname!\n#\n# Available built-in colors (ANSI):\n#   black, red, green, yellow, blue, magenta, cyan, white, grey\n#\n# Available custom colors (Hex):\n#   lightpink, pink, purple, white (hex), orange, teal, lime\n#\n# Available styles:\n#   bold, italic, underline, reset\n#\n# File Type Colors:\n#   Configure colors for 'ls' in [theme.files].\n#   Use keys like 'python' (for .py), 'directory', or 'file.zip' (for .zip).\n#\n"@
}

/// The text of the configuration file: the header comment, the serialized
/// configuration, and a line break.
pub open spec fn config_file_text(content: Seq<char>) -> Seq<char> {
    config_header() + content + seq!['\n']
}

/// The text to write to the configuration file for the serialized
/// configuration `content`: see [`config_file_text`].
pub fn commented_config(content: &str) -> (s: String)
    ensures
        s@ == config_file_text(content@),
{
    let mut out: Vec<char> = Vec::new();
    push_str(
        &mut out,
        "# AeroShell Configuration\n# -----------------------\n# Color Selector\n# Define custom colors here using hex codes (e.g. #RRGGBB)\n# usage in prompt: !colorname!\n#\n# Available built-in colors (ANSI):\n#   black, red, green, yellow, blue, magenta, cyan, white, grey\n#\n# Available custom colors (Hex):\n#   lightpink, pink, purple, white (hex), orange, teal, lime\n#\n# Available styles:\n#   bold, italic, underline, reset\n#\n# File Type Colors:\n#   Configure colors for 'ls' in [theme.files].\n#   Use keys like 'python' (for .py), 'directory', or 'file.zip' (for .zip).\n#\n",
    );
    push_str(&mut out, content);
    out.push('\n');
    from_chars(&out)
}

} // verus!
