//! What the shell sets up when it starts: the variables that it exports to
//! the programs it runs, the place of its history, and its entry in the
//! list of login shells.

use crate::config::RootConfig;
use crate::text::{
    from_chars, push_str, same_chars, split, split_on, text_of, to_chars, to_uppercase, trim,
    trimmed, uppercase, views,
};
use vstd::prelude::*;

verus! {

/// A variable of the environment: its name and its value.
pub type Variable = (String, String);

/// The names and values of `v` as plain values.
pub open spec fn variable_views(v: Seq<Variable>) -> Seq<(Seq<char>, Seq<char>)> {
    v.map_values(|p: Variable| (p.0@, p.1@))
}

/// The name of the variable that exports the color `name`: `AERO_COLOR_`
/// and the name in upper case.
pub open spec fn color_variable(name: Seq<char>) -> Seq<char> {
    "AERO_COLOR_"@ + uppercase(name)
}

/// The variables that export the colors `names` of the palette `colors`.
pub open spec fn color_variables(names: Seq<Seq<char>>, colors: Map<Seq<char>, Seq<char>>) -> Seq<
    (Seq<char>, Seq<char>),
> {
    names.map_values(|name: Seq<char>| (color_variable(name), colors[name]))
}

/// The variables that export the theme.
pub open spec fn theme_variables(config: RootConfig) -> Seq<(Seq<char>, Seq<char>)> {
    seq![
        ("AERO_THEME_AUTOCOMPLETE"@, config.theme.autocomplete@),
        ("AERO_THEME_TYPING"@, config.theme.typing@),
        ("AERO_THEME_TYPINGTEXT"@, config.theme.typingtext@),
        ("AERO_THEME_HEADER"@, config.theme.header@),
        ("AERO_THEME_SUBHEADER"@, config.theme.subheader@),
        ("AERO_THEME_BODY"@, config.theme.body@),
        ("AERO_THEME_ACTIVE"@, config.theme.active@),
        ("AERO_THEME_DISABLE"@, config.theme.disable@),
    ]
}

/// The variables that the shell exports for `config`: one for each color
/// of the palette, then those of the theme.
pub open spec fn exports(config: RootConfig) -> Seq<(Seq<char>, Seq<char>)> {
    color_variables(config.colors.keys(), config.colors@) + theme_variables(config)
}

/// Whether position `i` of the exported variables is the one for the color
/// `name`: it is the place of `name` among the keys of the palette, and
/// there stands the variable of that name with the color's value.
pub open spec fn exports_color_at(config: RootConfig, name: Seq<char>, i: int) -> bool {
    &&& 0 <= i < config.colors.keys().len()
    &&& config.colors.keys()[i] == name
    &&& exports(config)[i] == (color_variable(name), config.colors@[name])
}

/// Every color of the palette is exported once: it has one position among
/// the exported variables, and the variables are as many as the palette
/// has colors, and eight for the theme.
pub proof fn lemma_each_color_exported_once(config: RootConfig, name: Seq<char>)
    requires
        config.colors@.contains_key(name),
    ensures
        exists|i: int|
            exports_color_at(config, name, i) && forall|j: int|
                exports_color_at(config, name, j) ==> j == i,
        exports(config).len() == config.colors@.len() + 8,
{
    config.colors.lemma_keys();
    let keys = config.colors.keys();
    assert(keys.contains(name));
    let i = choose|i: int| 0 <= i < keys.len() && keys[i] == name;
    assert(exports_color_at(config, name, i));
    assert forall|j: int| exports_color_at(config, name, j) implies j == i by {
        if j != i {
            assert(keys[j] != keys[i]);
        }
    }
}

/// The variables that the shell exports for `config`: see [`exports`].
pub fn exported_variables(config: &RootConfig) -> (vars: Vec<Variable>)
    ensures
        variable_views(vars@) == exports(*config),
{
    let mut vars: Vec<Variable> = Vec::new();
    let ghost names = config.colors.keys();
    let n = config.colors.len();
    let mut i: usize = 0;
    while i < n
        invariant
            i <= n,
            n == names.len(),
            names == config.colors.keys(),
            variable_views(vars@) == color_variables(names.take(i as int), config.colors@),
        decreases n - i,
    {
        let ghost before = variable_views(vars@);
        let (name, hex) = config.colors.entry(i);
        let mut variable: Vec<char> = Vec::new();
        push_str(&mut variable, "AERO_COLOR_");
        push_str(&mut variable, to_uppercase(name.as_str()).as_str());
        let pair = (from_chars(&variable), hex.clone());
        vars.push(pair);
        proof {
            assert(variable_views(vars@) == before.push((pair.0@, pair.1@)));
            assert(color_variables(names.take(i + 1), config.colors@) == color_variables(
                names.take(i as int),
                config.colors@,
            ).push((color_variable(names[i as int]), config.colors@[names[i as int]])));
        }
        i += 1;
    }
    assert(names.take(n as int) == names);
    let ghost colors = variable_views(vars@);
    vars.push(("AERO_THEME_AUTOCOMPLETE".to_owned(), config.theme.autocomplete.clone()));
    vars.push(("AERO_THEME_TYPING".to_owned(), config.theme.typing.clone()));
    vars.push(("AERO_THEME_TYPINGTEXT".to_owned(), config.theme.typingtext.clone()));
    vars.push(("AERO_THEME_HEADER".to_owned(), config.theme.header.clone()));
    vars.push(("AERO_THEME_SUBHEADER".to_owned(), config.theme.subheader.clone()));
    vars.push(("AERO_THEME_BODY".to_owned(), config.theme.body.clone()));
    vars.push(("AERO_THEME_ACTIVE".to_owned(), config.theme.active.clone()));
    vars.push(("AERO_THEME_DISABLE".to_owned(), config.theme.disable.clone()));
    assert(variable_views(vars@) == colors + theme_variables(*config));
    vars
}

/// The file that keeps the history of input lines: `.aeroshell_history` in
/// the home directory, or in the working directory without a home
/// directory.
pub open spec fn history_file(home: Option<Seq<char>>) -> Seq<char> {
    match home {
        Some(h) => h + "/.aeroshell_history"@,
        None => ".aeroshell_history"@,
    }
}

/// The file that keeps the history of input lines: see [`history_file`].
pub fn history_path(home: Option<&str>) -> (path: String)
    ensures
        path@ == history_file(text_of(home)),
{
    let mut out: Vec<char> = Vec::new();
    match home {
        Some(h) => {
            push_str(&mut out, h);
            push_str(&mut out, "/.aeroshell_history");
        },
        None => {
            push_str(&mut out, ".aeroshell_history");
        },
    }
    from_chars(&out)
}

/// Whether the piece at position `k` of a text split at its line breaks is
/// a line: every piece is, but an empty last one.
pub open spec fn is_line(pieces: Seq<Seq<char>>, k: int) -> bool {
    0 <= k < pieces.len() && (k < pieces.len() - 1 || pieces[k].len() > 0)
}

/// Whether the list of login shells `contents` names the shell `path`: one
/// of its lines, trimmed, is `path`.
pub open spec fn lists_shell(contents: Seq<char>, path: Seq<char>) -> bool {
    exists|k: int|
        is_line(split(contents, '\n'), k) && trim(#[trigger] split(contents, '\n')[k]) == path
}

/// Whether the list of login shells `contents` names the shell `path`: see
/// [`lists_shell`].
pub fn is_listed_shell(contents: &str, path: &str) -> (r: bool)
    ensures
        r == lists_shell(contents@, path@),
{
    let text = to_chars(contents);
    let wanted = to_chars(path);
    let pieces = split_on(&text, '\n');
    let ghost all = split(contents@, '\n');
    let mut k: usize = 0;
    while k < pieces.len()
        invariant
            k <= pieces.len(),
            all == views(pieces@),
            all == split(contents@, '\n'),
            wanted@ == path@,
            forall|j: int| 0 <= j < k ==> !(is_line(all, j) && trim(#[trigger] all[j]) == path@),
        decreases pieces.len() - k,
    {
        assert(all[k as int] == pieces@[k as int]@);
        let last = k == pieces.len() - 1;
        if !last || pieces[k].len() > 0 {
            let line = trimmed(&pieces[k]);
            if same_chars(&line, &wanted) {
                assert(is_line(all, k as int) && trim(all[k as int]) == path@);
                return true;
            }
        }
        k += 1;
    }
    false
}

/// The command that adds the shell `path` to the list of login shells.
pub open spec fn append_shell_text(path: Seq<char>) -> Seq<char> {
    "echo '"@ + path + "' >> /etc/shells"@
}

/// The command that adds the shell `path` to the list of login shells: see
/// [`append_shell_text`].
pub fn append_shell_command(path: &str) -> (command: String)
    ensures
        command@ == append_shell_text(path@),
{
    let mut out: Vec<char> = Vec::new();
    push_str(&mut out, "echo '");
    push_str(&mut out, path);
    push_str(&mut out, "' >> /etc/shells");
    from_chars(&out)
}

} // verus!
