//! The prompt template renderer.
//!
//! A template is rendered in two passes. The first replaces the variable
//! markers `%username%`, `%hostname%`, `%directory%` and `%time%` by their
//! values. The second scans the result for style tags, `!name,name!`, and
//! replaces each by the escape sequences of the styles it names.
//!
//! The passes run in this order, and the second sees what the first put in:
//! a value that holds a `!` can open or close a tag, and a value that holds
//! the marker of a later variable is itself expanded. Prompts rely on the
//! order, so it is part of the contract; a caller that wants a value shown
//! as it is keeps `!` and `%` out of it.

use crate::clock::{is_clock_text, local_time_text};
use crate::color::{
    hex_escape, parse_hex_chars, push_rgb_escape, push_sgr, resolve, resolve_color, sgr,
};
use crate::config::{Config, Environment};
use crate::string_map::StringMap;
use crate::text::{
    find_char, from_chars, is_prefix, is_text, lemma_find_char, lemma_find_char_is,
    lemma_replace_all_without_match, occurs_in, push_all, replace, replace_all, slice_chars, split,
    split_on, starts_with, to_chars, trim, trimmed, views,
};
use vstd::prelude::*;

verus! {

/// The values of the four template variables.
#[derive(Clone, Debug)]
pub struct Bindings {
    pub username: String,
    pub hostname: String,
    pub directory: String,
    pub time: String,
}

/// The values of the four template variables, as sequences of characters.
pub ghost struct BindingValues {
    pub username: Seq<char>,
    pub hostname: Seq<char>,
    pub directory: Seq<char>,
    pub time: Seq<char>,
}

impl View for Bindings {
    type V = BindingValues;

    open spec fn view(&self) -> BindingValues {
        BindingValues {
            username: self.username@,
            hostname: self.hostname@,
            directory: self.directory@,
            time: self.time@,
        }
    }
}

/// The template after the first pass: every `%username%` replaced, then
/// every `%hostname%`, then every `%directory%`, then every `%time%`.
pub open spec fn substitute(template: Seq<char>, values: BindingValues) -> Seq<char> {
    replace_all(
        replace_all(
            replace_all(
                replace_all(template, "%username%"@, values.username),
                "%hostname%"@,
                values.hostname,
            ),
            "%directory%"@,
            values.directory,
        ),
        "%time%"@,
        values.time,
    )
}

/// The display attribute that a style name selects, if it is one.
pub open spec fn style_code(name: Seq<char>) -> Option<nat> {
    if name == "reset"@ {
        Some(0nat)
    } else if name == "bold"@ {
        Some(1nat)
    } else if name == "italic"@ {
        Some(3nat)
    } else if name == "underline"@ {
        Some(4nat)
    } else {
        None
    }
}

/// What one name inside a tag contributes to the output: the escape
/// sequence of the color it stands for, of the style it names, or of the
/// hex triplet it writes after a `#`; nothing where it is none of these.
pub open spec fn style_escape(name: Seq<char>, palette: Map<Seq<char>, Seq<char>>) -> Seq<char> {
    match resolve(name, palette) {
        Some(c) => c.escape(),
        None => match style_code(name) {
            Some(code) => sgr(code),
            None => if name.len() > 0 && name[0] == '#' {
                match hex_escape(name) {
                    Some(e) => e,
                    None => Seq::empty(),
                }
            } else {
                Seq::empty()
            },
        },
    }
}

/// The escape sequences of the trimmed names in `parts`, one after the
/// other.
pub open spec fn escapes_of(parts: Seq<Seq<char>>, palette: Map<Seq<char>, Seq<char>>) -> Seq<
    char,
>
    decreases parts.len(),
{
    if parts.len() == 0 {
        Seq::empty()
    } else {
        escapes_of(parts.drop_last(), palette) + style_escape(trim(parts.last()), palette)
    }
}

/// What a tag with the given body contributes: the body is split at its
/// commas, and each piece is trimmed and resolved on its own.
pub open spec fn tag_escapes(body: Seq<char>, palette: Map<Seq<char>, Seq<char>>) -> Seq<char> {
    escapes_of(split(body, ','), palette)
}

/// The text after the second pass. A `!` opens a tag that the next `!`
/// closes; the tag is replaced by its escape sequences. A `!` that nothing
/// closes stays, with all that follows it. Other characters stay.
pub open spec fn render_tags(s: Seq<char>, palette: Map<Seq<char>, Seq<char>>) -> Seq<char>
    decreases s.len(),
    via render_tags_decreases
{
    if s.len() == 0 {
        s
    } else if s[0] != '!' {
        seq![s[0]] + render_tags(s.skip(1), palette)
    } else {
        let rest = s.skip(1);
        let close = find_char(rest, '!');
        if close >= rest.len() {
            s
        } else {
            tag_escapes(rest.take(close), palette) + render_tags(rest.skip(close + 1), palette)
        }
    }
}

#[via_fn]
proof fn render_tags_decreases(s: Seq<char>, palette: Map<Seq<char>, Seq<char>>) {
    if s.len() > 0 {
        lemma_find_char(s.skip(1), '!');
    }
}

/// What [`render`] returns.
pub open spec fn rendering(
    template: Seq<char>,
    values: BindingValues,
    palette: Map<Seq<char>, Seq<char>>,
) -> Seq<char> {
    render_tags(substitute(template, values), palette)
}

/// Appends [`style_escape`] of `name` to `out`.
fn push_style_escape(out: &mut Vec<char>, name: &Vec<char>, palette: &StringMap)
    ensures
        final(out)@ == old(out)@ + style_escape(name@, palette@),
{
    let key = from_chars(name);
    match resolve_color(key.as_str(), palette) {
        Some(c) => {
            c.push_escape(out);
            return ;
        },
        None => {},
    }
    if is_text(name, "reset") {
        push_sgr(out, 0);
    } else if is_text(name, "bold") {
        push_sgr(out, 1);
    } else if is_text(name, "italic") {
        push_sgr(out, 3);
    } else if is_text(name, "underline") {
        push_sgr(out, 4);
    } else if name.len() > 0 && name[0] == '#' {
        match parse_hex_chars(name) {
            Some((r, g, b)) => push_rgb_escape(out, r, g, b),
            None => {
                assert(out@ == old(out)@ + Seq::<char>::empty());
            },
        }
    } else {
        assert(out@ == old(out)@ + Seq::<char>::empty());
    }
}

/// Appends [`tag_escapes`] of `body` to `out`.
fn push_tag_escapes(out: &mut Vec<char>, body: &Vec<char>, palette: &StringMap)
    ensures
        final(out)@ == old(out)@ + tag_escapes(body@, palette@),
{
    let parts = split_on(body, ',');
    let mut k: usize = 0;
    assert(views(parts@).take(0) == Seq::<Seq<char>>::empty());
    assert(out@ == old(out)@ + escapes_of(views(parts@).take(0), palette@));
    while k < parts.len()
        invariant
            k <= parts.len(),
            views(parts@) == split(body@, ','),
            out@ == old(out)@ + escapes_of(views(parts@).take(k as int), palette@),
        decreases parts.len() - k,
    {
        let name = trimmed(&parts[k]);
        let ghost before = out@;
        push_style_escape(out, &name, palette);
        proof {
            let done = views(parts@).take(k + 1);
            assert(done.drop_last() == views(parts@).take(k as int));
            assert(done.last() == parts@[k as int]@);
        }
        k += 1;
    }
    assert(views(parts@).take(parts.len() as int) == views(parts@));
}

/// Computes [`render_tags`] in one pass with two states: copying text, or
/// collecting the body of a tag.
pub fn render_style_tags(s: &Vec<char>, palette: &StringMap) -> (out: Vec<char>)
    ensures
        out@ == render_tags(s@, palette@),
{
    let mut out: Vec<char> = Vec::new();
    let mut tag: Vec<char> = Vec::new();
    let mut in_tag = false;
    let ghost mut start: int = 0;
    let mut i: usize = 0;
    assert(s@.skip(0) == s@);
    assert(out@ + render_tags(s@, palette@) == render_tags(s@, palette@));
    while i < s.len()
        invariant
            i <= s.len(),
            !in_tag ==> out@ + render_tags(s@.skip(i as int), palette@) == render_tags(
                s@,
                palette@,
            ),
            in_tag ==> {
                &&& 0 <= start < i
                &&& s@[start] == '!'
                &&& tag@ == s@.subrange(start + 1, i as int)
                &&& forall|j: int| start < j < i ==> s@[j] != '!'
                &&& out@ + render_tags(s@.skip(start), palette@) == render_tags(s@, palette@)
            },
        decreases s.len() - i,
    {
        let c = s[i];
        if in_tag {
            if c == '!' {
                proof {
                    let whole = s@.skip(start);
                    let rest = whole.skip(1);
                    assert(rest == s@.skip(start + 1));
                    lemma_find_char_is(rest, '!', i - start - 1);
                    assert(rest.take(i - start - 1) == tag@);
                    assert(rest.skip(i - start) == s@.skip(i + 1));
                }
                push_tag_escapes(&mut out, &tag, palette);
                tag = Vec::new();
                in_tag = false;
            } else {
                tag.push(c);
                assert(tag@ == s@.subrange(start + 1, i + 1));
            }
        } else if c == '!' {
            tag = Vec::new();
            in_tag = true;
            proof {
                start = i as int;
            }
            assert(tag@ == s@.subrange(start + 1, i + 1));
        } else {
            let ghost before = out@;
            out.push(c);
            proof {
                let tail = render_tags(s@.skip(i + 1), palette@);
                assert(s@.skip(i as int).skip(1) == s@.skip(i + 1));
                assert(before.push(c) + tail == before + (seq![c] + tail));
            }
        }
        i += 1;
    }
    if in_tag {
        proof {
            let whole = s@.skip(start);
            let rest = whole.skip(1);
            assert(rest == s@.skip(start + 1));
            lemma_find_char_is(rest, '!', rest.len() as int);
            assert(whole == seq!['!'] + tag@);
        }
        out.push('!');
        push_all(&mut out, &tag);
    } else {
        assert(s@.skip(s.len() as int) == Seq::<char>::empty());
    }
    out
}

/// Computes [`substitute`].
pub fn substitute_variables(template: &Vec<char>, bindings: &Bindings) -> (r: Vec<char>)
    ensures
        r@ == substitute(template@, bindings@),
{
    let r = replace(template, &to_chars("%username%"), &to_chars(bindings.username.as_str()));
    let r = replace(&r, &to_chars("%hostname%"), &to_chars(bindings.hostname.as_str()));
    let r = replace(&r, &to_chars("%directory%"), &to_chars(bindings.directory.as_str()));
    replace(&r, &to_chars("%time%"), &to_chars(bindings.time.as_str()))
}

/// Renders `template`: the variable markers are replaced by the values in
/// `bindings`, then the style tags by their escape sequences under
/// `palette`. A name that stands for nothing contributes nothing, and a tag
/// that is not closed stays as it is.
pub fn render(template: &str, bindings: &Bindings, palette: &StringMap) -> (s: String)
    ensures
        s@ == rendering(template@, bindings@, palette@),
{
    let chars = to_chars(template);
    let substituted = substitute_variables(&chars, bindings);
    let out = render_style_tags(&substituted, palette);
    from_chars(&out)
}

/// The working directory as the prompt shows it: where it begins with a
/// non-empty home directory, that beginning is written `~`.
pub open spec fn display_directory(current_dir: Seq<char>, home: Seq<char>) -> Seq<char> {
    if home.len() > 0 && is_prefix(home, current_dir) {
        seq!['~'] + current_dir.skip(home.len() as int)
    } else {
        current_dir
    }
}

/// The text of an optional string, or `default` where there is none.
pub open spec fn text_or(s: Option<String>, default: Seq<char>) -> Seq<char> {
    match s {
        Some(t) => t@,
        None => default,
    }
}

/// The values that [`format_prompt`] binds at the time of day `time`: the
/// configured user name; the host's name, or `localhost` where there is
/// none; the working directory as [`display_directory`] writes it, an
/// absent home directory counting as empty; and `time`.
pub open spec fn prompt_values(config: Config, env: Environment, time: Seq<char>) -> BindingValues {
    BindingValues {
        username: config.username@,
        hostname: text_or(env.hostname, "localhost"@),
        directory: display_directory(env.current_dir@, text_or(env.home, Seq::empty())),
        time: time,
    }
}

/// Computes [`display_directory`].
pub fn shown_directory(current_dir: &str, home: &str) -> (s: String)
    ensures
        s@ == display_directory(current_dir@, home@),
{
    let dir = to_chars(current_dir);
    let home_chars = to_chars(home);
    if home_chars.len() > 0 && starts_with(&dir, &home_chars) {
        let mut out: Vec<char> = Vec::new();
        out.push('~');
        let tail = slice_chars(&dir, home_chars.len(), dir.len());
        push_all(&mut out, &tail);
        from_chars(&out)
    } else {
        from_chars(&dir)
    }
}

/// Computes [`prompt_values`].
pub fn prompt_bindings(config: &Config, env: &Environment, time: String) -> (b: Bindings)
    ensures
        b@ == prompt_values(*config, *env, time@),
{
    let hostname = match &env.hostname {
        Some(h) => h.clone(),
        None => "localhost".to_owned(),
    };
    let directory = match &env.home {
        Some(h) => shown_directory(env.current_dir.as_str(), h.as_str()),
        None => shown_directory(env.current_dir.as_str(), ""),
    };
    proof {
        reveal_strlit("");
        assert(""@ == Seq::<char>::empty());
    }
    Bindings { username: config.username.clone(), hostname, directory, time }
}

/// Renders `template` for display: with the user name and the palette of
/// `config`, the host and directories of `env`, and the local time of day
/// at the moment of the call.
///
/// The time is read from the clock, so the contract says what holds for
/// whichever time was read; [`render`] gives the result for a given time.
///
/// Reading the clock panics while the system clock stands before 1970, and
/// so does this function. A caller that must not panic reads the time
/// itself and calls [`prompt_bindings`] and [`render`].
pub fn format_prompt(template: &str, config: &Config, env: &Environment) -> (s: String)
    ensures
        exists|time: Seq<char>|
            is_clock_text(time) && s@ == rendering(
                template@,
                prompt_values(*config, *env, time),
                config.colors@,
            ),
{
    let time = local_time_text();
    let ghost read = time@;
    let bindings = prompt_bindings(config, env, time);
    let s = render(template, &bindings, &config.colors);
    assert(is_clock_text(read) && s@ == rendering(
        template@,
        prompt_values(*config, *env, read),
        config.colors@,
    ));
    s
}

/// Whether one of the four variable markers occurs in `s`.
pub open spec fn has_variable_marker(s: Seq<char>) -> bool {
    ||| occurs_in("%username%"@, s)
    ||| occurs_in("%hostname%"@, s)
    ||| occurs_in("%directory%"@, s)
    ||| occurs_in("%time%"@, s)
}

/// Whether `s` holds a style tag: a `!` with another `!` after it.
pub open spec fn has_style_tag(s: Seq<char>) -> bool {
    exists|i: int, j: int| 0 <= i < j < s.len() && s[i] == '!' && s[j] == '!'
}

/// Text without a style tag passes the second pass unchanged.
pub proof fn lemma_render_tags_plain(s: Seq<char>, palette: Map<Seq<char>, Seq<char>>)
    requires
        !has_style_tag(s),
    ensures
        render_tags(s, palette) == s,
    decreases s.len(),
{
    if s.len() == 0 {
    } else if s[0] != '!' {
        let rest = s.skip(1);
        assert forall|i: int, j: int| 0 <= i < j < rest.len() implies !(rest[i] == '!' && rest[j]
            == '!') by {
            assert(s[i + 1] == rest[i] && s[j + 1] == rest[j]);
        }
        lemma_render_tags_plain(rest, palette);
        assert(seq![s[0]] + rest == s);
    } else {
        let rest = s.skip(1);
        assert forall|j: int| 0 <= j < rest.len() implies rest[j] != '!' by {
            assert(s[j + 1] == rest[j]);
            assert(!(s[0] == '!' && s[j + 1] == '!'));
        }
        lemma_find_char_is(rest, '!', rest.len() as int);
    }
}

/// A template that holds neither a variable marker nor a style tag renders
/// as itself, whatever the values and the palette.
pub proof fn lemma_plain_template_renders_unchanged(
    template: Seq<char>,
    values: BindingValues,
    palette: Map<Seq<char>, Seq<char>>,
)
    requires
        !has_variable_marker(template),
        !has_style_tag(template),
    ensures
        rendering(template, values, palette) == template,
{
    lemma_replace_all_without_match(template, "%username%"@, values.username);
    lemma_replace_all_without_match(template, "%hostname%"@, values.hostname);
    lemma_replace_all_without_match(template, "%directory%"@, values.directory);
    lemma_replace_all_without_match(template, "%time%"@, values.time);
    lemma_render_tags_plain(template, palette);
}

} // verus!
