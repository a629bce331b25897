//! What the shell does with a line of input.
//!
//! The line is trimmed and split into words as a POSIX shell would split
//! it; the first word names the command. [`interpret`] decides what is to
//! be done; doing it is left to the caller.

use crate::text::{
    from_chars, is_text, push_all, push_str, slice_chars, text_of, texts, to_chars, trim, trimmed,
};
use vstd::prelude::*;

verus! {

/// What `aero`, the shell's manager, is asked to do.
#[derive(Clone, Debug, PartialEq, Eq)]
pub enum AeroAction {
    /// Show how `aero` is used.
    Usage,
    /// Open the configuration in the editor, then read it again.
    EditConfig,
    /// Make this shell the user's default shell.
    SetDefault,
    /// Update the shell from the archive named.
    Update(String),
    /// Report that the subcommand named is unknown.
    Unknown(String),
}

/// What the shell does for one line of input.
#[derive(Clone, Debug, PartialEq, Eq)]
pub enum Action {
    /// Nothing: the line holds no word.
    Nothing,
    /// Report that a quote in the line is not closed.
    UnmatchedQuote,
    /// Change the working directory to the one named.
    ChangeDirectory(String),
    /// List a directory; the arguments follow.
    List(Vec<String>),
    /// Show processes; the arguments follow.
    Processes(Vec<String>),
    /// Leave the shell.
    Exit,
    /// Clear the screen.
    Clear,
    /// Open the configuration in the editor, then read it again.
    EditConfig,
    /// Hand over to the shell's manager.
    Aero(AeroAction),
    /// Show the built-in commands.
    Help,
    /// Run the program named, with the arguments that follow.
    Run(String, Vec<String>),
}

/// An [`AeroAction`] as plain values.
pub ghost enum AeroActionView {
    Usage,
    EditConfig,
    SetDefault,
    Update(Seq<char>),
    Unknown(Seq<char>),
}

/// An [`Action`] as plain values.
pub ghost enum ActionView {
    Nothing,
    UnmatchedQuote,
    ChangeDirectory(Seq<char>),
    List(Seq<Seq<char>>),
    Processes(Seq<Seq<char>>),
    Exit,
    Clear,
    EditConfig,
    Aero(AeroActionView),
    Help,
    Run(Seq<char>, Seq<Seq<char>>),
}

impl View for AeroAction {
    type V = AeroActionView;

    open spec fn view(&self) -> AeroActionView {
        match self {
            AeroAction::Usage => AeroActionView::Usage,
            AeroAction::EditConfig => AeroActionView::EditConfig,
            AeroAction::SetDefault => AeroActionView::SetDefault,
            AeroAction::Update(archive) => AeroActionView::Update(archive@),
            AeroAction::Unknown(name) => AeroActionView::Unknown(name@),
        }
    }
}

impl View for Action {
    type V = ActionView;

    open spec fn view(&self) -> ActionView {
        match self {
            Action::Nothing => ActionView::Nothing,
            Action::UnmatchedQuote => ActionView::UnmatchedQuote,
            Action::ChangeDirectory(dir) => ActionView::ChangeDirectory(dir@),
            Action::List(args) => ActionView::List(texts(args@)),
            Action::Processes(args) => ActionView::Processes(texts(args@)),
            Action::Exit => ActionView::Exit,
            Action::Clear => ActionView::Clear,
            Action::EditConfig => ActionView::EditConfig,
            Action::Aero(a) => ActionView::Aero(a@),
            Action::Help => ActionView::Help,
            Action::Run(program, args) => ActionView::Run(program@, texts(args@)),
        }
    }
}

/// The words that `shlex::split` finds in `input`, or `None` where it
/// reports an error, such as a quote that is not closed.
pub uninterp spec fn shell_words(input: Seq<char>) -> Option<Seq<Seq<char>>>;

/// The texts of the words inside an `Option`.
pub open spec fn words_of(words: Option<Vec<String>>) -> Option<Seq<Seq<char>>> {
    match words {
        Some(w) => Some(texts(w@)),
        None => None,
    }
}

/// Splits `input` into words by the rules of a POSIX shell.
///
/// Calls `shlex::split`. The contract is not proved; it gives the result a
/// name, [`shell_words`], and says nothing more of it.
#[verifier::external_body]
fn split_words(input: &str) -> (r: Option<Vec<String>>)
    ensures
        words_of(r) == shell_words(input@),
{
    shlex::split(input)
}

/// The home directory, or the root directory where there is none.
pub open spec fn home_or_root(home: Option<Seq<char>>) -> Seq<char> {
    match home {
        Some(h) => h,
        None => seq!['/'],
    }
}

/// The directory that `cd` changes to: without an argument, the home
/// directory; with a first argument that begins with `~`, that argument
/// with the home directory in place of the `~`; else the first argument.
pub open spec fn cd_target(args: Seq<Seq<char>>, home: Option<Seq<char>>) -> Seq<char> {
    if args.len() == 0 {
        home_or_root(home)
    } else if args[0].len() > 0 && args[0][0] == '~' {
        home_or_root(home) + args[0].skip(1)
    } else {
        args[0]
    }
}

/// What `aero` does with its arguments. `update` needs the archive's name
/// after it; without one it counts as unknown.
pub open spec fn aero_action_for(args: Seq<Seq<char>>) -> AeroActionView {
    if args.len() == 0 {
        AeroActionView::Usage
    } else if args[0] == "config"@ {
        AeroActionView::EditConfig
    } else if args[0] == "setdefault"@ {
        AeroActionView::SetDefault
    } else if args[0] == "update"@ && args.len() > 1 {
        AeroActionView::Update(args[1])
    } else {
        AeroActionView::Unknown(args[0])
    }
}

/// What the shell does for the words of a line: the first word names the
/// command, the others are its arguments. A first word that names no
/// built-in command names a program to run.
pub open spec fn action_for_words(words: Seq<Seq<char>>, home: Option<Seq<char>>) -> ActionView {
    if words.len() == 0 {
        ActionView::Nothing
    } else {
        let command = words[0];
        let args = words.skip(1);
        if command == "cd"@ {
            ActionView::ChangeDirectory(cd_target(args, home))
        } else if command == "ls"@ {
            ActionView::List(args)
        } else if command == "proc"@ {
            ActionView::Processes(args)
        } else if command == "exit"@ {
            ActionView::Exit
        } else if command == "clear"@ {
            ActionView::Clear
        } else if command == "config"@ {
            ActionView::EditConfig
        } else if command == "aero"@ {
            ActionView::Aero(aero_action_for(args))
        } else if command == "help"@ {
            ActionView::Help
        } else {
            ActionView::Run(command, args)
        }
    }
}

/// What the shell does for the outcome of splitting a line into words.
pub open spec fn action_for_split(words: Option<Seq<Seq<char>>>, home: Option<Seq<char>>)
    -> ActionView {
    match words {
        Some(w) => action_for_words(w, home),
        None => ActionView::UnmatchedQuote,
    }
}

/// What the shell does for a line of input: nothing where the trimmed line
/// is empty; else what [`action_for_split`] says of the words of the
/// trimmed line.
pub open spec fn action_for(line: Seq<char>, home: Option<Seq<char>>) -> ActionView {
    if trim(line).len() == 0 {
        ActionView::Nothing
    } else {
        action_for_split(shell_words(trim(line)), home)
    }
}

/// The directory that `cd` changes to: see [`cd_target`].
pub fn change_directory_target(args: &Vec<String>, home: Option<&str>) -> (dir: String)
    ensures
        dir@ == cd_target(texts(args@), text_of(home)),
{
    let mut base: Vec<char> = Vec::new();
    match home {
        Some(h) => push_str(&mut base, h),
        None => base.push('/'),
    }
    assert(base@ == home_or_root(text_of(home)));
    if args.len() == 0 {
        return from_chars(&base);
    }
    assert(texts(args@)[0] == args@[0]@);
    let first = to_chars(args[0].as_str());
    if first.len() > 0 && first[0] == '~' {
        let rest = slice_chars(&first, 1, first.len());
        push_all(&mut base, &rest);
        from_chars(&base)
    } else {
        from_chars(&first)
    }
}

/// What `aero` does with its arguments: see [`aero_action_for`].
pub fn aero_action(args: &Vec<String>) -> (a: AeroAction)
    ensures
        a@ == aero_action_for(texts(args@)),
{
    if args.len() == 0 {
        return AeroAction::Usage;
    }
    assert(texts(args@)[0] == args@[0]@);
    let first = to_chars(args[0].as_str());
    if is_text(&first, "config") {
        AeroAction::EditConfig
    } else if is_text(&first, "setdefault") {
        AeroAction::SetDefault
    } else if is_text(&first, "update") && args.len() > 1 {
        assert(texts(args@)[1] == args@[1]@);
        AeroAction::Update(args[1].clone())
    } else {
        AeroAction::Unknown(args[0].clone())
    }
}

/// What the shell does for the words of a line: see [`action_for_words`].
pub fn dispatch(words: Vec<String>, home: Option<&str>) -> (a: Action)
    ensures
        a@ == action_for_words(texts(words@), text_of(home)),
{
    if words.len() == 0 {
        return Action::Nothing;
    }
    let ghost all = texts(words@);
    assert(all[0] == words@[0]@);
    let mut args = words;
    let command = args.remove(0);
    assert(texts(args@) == all.skip(1));
    let name = to_chars(command.as_str());
    if is_text(&name, "cd") {
        Action::ChangeDirectory(change_directory_target(&args, home))
    } else if is_text(&name, "ls") {
        Action::List(args)
    } else if is_text(&name, "proc") {
        Action::Processes(args)
    } else if is_text(&name, "exit") {
        Action::Exit
    } else if is_text(&name, "clear") {
        Action::Clear
    } else if is_text(&name, "config") {
        Action::EditConfig
    } else if is_text(&name, "aero") {
        Action::Aero(aero_action(&args))
    } else if is_text(&name, "help") {
        Action::Help
    } else {
        Action::Run(command, args)
    }
}

/// What the shell does for the outcome of splitting a line into words: see
/// [`action_for_split`].
pub fn dispatch_split(words: Option<Vec<String>>, home: Option<&str>) -> (a: Action)
    ensures
        a@ == action_for_split(words_of(words), text_of(home)),
{
    match words {
        Some(w) => dispatch(w, home),
        None => Action::UnmatchedQuote,
    }
}

/// What the shell does for the line `line`, when the environment gives the
/// home directory `home`: see [`action_for`].
pub fn interpret(line: &str, home: Option<&str>) -> (a: Action)
    ensures
        a@ == action_for(line@, text_of(home)),
{
    let chars = to_chars(line);
    let input = trimmed(&chars);
    if input.len() == 0 {
        return Action::Nothing;
    }
    let text = from_chars(&input);
    dispatch_split(split_words(text.as_str()), home)
}

} // verus!
