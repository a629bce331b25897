use aeroshell::shell::{
    aero_action, change_directory_target, dispatch, dispatch_split, interpret, Action, AeroAction,
};

fn words(list: &[&str]) -> Vec<String> {
    list.iter().map(|w| w.to_string()).collect()
}

#[test]
fn blank_lines_do_nothing() {
    assert_eq!(interpret("", None), Action::Nothing);
    assert_eq!(interpret("   \t ", Some("/home/ada")), Action::Nothing);
    assert_eq!(interpret("''", None), Action::Run("".to_string(), vec![]));
    assert_eq!(interpret("# only a comment", None), Action::Nothing);
}

#[test]
fn unmatched_quote_is_reported() {
    assert_eq!(interpret("echo 'abc", None), Action::UnmatchedQuote);
    assert_eq!(interpret("echo \"abc", None), Action::UnmatchedQuote);
    assert_eq!(dispatch_split(None, None), Action::UnmatchedQuote);
}

#[test]
fn words_are_split_as_a_shell_splits_them() {
    assert_eq!(interpret("ls -l 'a b'", None), Action::List(words(&["-l", "a b"])));
    assert_eq!(
        interpret("  grep  \"two words\"   file\\ name ", None),
        Action::Run("grep".to_string(), words(&["two words", "file name"]))
    );
}

#[test]
fn builtin_commands() {
    assert_eq!(interpret("exit", None), Action::Exit);
    assert_eq!(interpret("clear", None), Action::Clear);
    assert_eq!(interpret("config", None), Action::EditConfig);
    assert_eq!(interpret("help", None), Action::Help);
    assert_eq!(interpret("ls", None), Action::List(vec![]));
    assert_eq!(interpret("proc mem", None), Action::Processes(words(&["mem"])));
    assert_eq!(interpret("exit now", None), Action::Exit);
    assert_eq!(interpret("Exit", None), Action::Run("Exit".to_string(), vec![]));
    assert_eq!(interpret("theme", None), Action::Run("theme".to_string(), vec![]));
}

#[test]
fn change_directory() {
    assert_eq!(interpret("cd", Some("/home/ada")), Action::ChangeDirectory("/home/ada".to_string()));
    assert_eq!(interpret("cd", None), Action::ChangeDirectory("/".to_string()));
    assert_eq!(interpret("cd ~", Some("/home/ada")), Action::ChangeDirectory("/home/ada".to_string()));
    assert_eq!(interpret("cd ~", None), Action::ChangeDirectory("/".to_string()));
    assert_eq!(
        interpret("cd ~/src", Some("/home/ada")),
        Action::ChangeDirectory("/home/ada/src".to_string())
    );
    assert_eq!(interpret("cd ~/src", None), Action::ChangeDirectory("//src".to_string()));
    assert_eq!(interpret("cd /tmp other", None), Action::ChangeDirectory("/tmp".to_string()));
    assert_eq!(interpret("cd a~b", Some("/h")), Action::ChangeDirectory("a~b".to_string()));
    assert_eq!(interpret("cd ''", Some("/h")), Action::ChangeDirectory("".to_string()));
    assert_eq!(change_directory_target(&words(&["~~"]), Some("/h")), "/h~");
}

#[test]
fn aero_subcommands() {
    assert_eq!(interpret("aero", None), Action::Aero(AeroAction::Usage));
    assert_eq!(interpret("aero config", None), Action::Aero(AeroAction::EditConfig));
    assert_eq!(interpret("aero setdefault", None), Action::Aero(AeroAction::SetDefault));
    assert_eq!(
        interpret("aero update new.zip", None),
        Action::Aero(AeroAction::Update("new.zip".to_string()))
    );
    assert_eq!(interpret("aero update", None), Action::Aero(AeroAction::Unknown("update".to_string())));
    assert_eq!(interpret("aero frob x", None), Action::Aero(AeroAction::Unknown("frob".to_string())));
    assert_eq!(aero_action(&words(&["config", "extra"])), AeroAction::EditConfig);
}

#[test]
fn dispatch_on_given_words() {
    assert_eq!(dispatch(vec![], None), Action::Nothing);
    assert_eq!(
        dispatch(words(&["cargo", "build", "--release"]), None),
        Action::Run("cargo".to_string(), words(&["build", "--release"]))
    );
    assert_eq!(dispatch_split(Some(words(&["help"])), None), Action::Help);
}
