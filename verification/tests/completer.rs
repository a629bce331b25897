use aeroshell::completer::{
    candidates, completion_context, entry_is_command, finalize, listing_for, AeroCompleter,
    CompletionContext, Entry, Listing, Span, Suggestion,
};

fn context(line: &str, pos: usize) -> CompletionContext {
    completion_context(line, pos).expect("the offset is a place for the cursor")
}

fn file(name: &str) -> Entry {
    Entry { name: name.to_string(), is_dir: false, mode: Some(0o644) }
}

fn dir(name: &str) -> Entry {
    Entry { name: name.to_string(), is_dir: true, mode: Some(0o755) }
}

fn command(name: &str) -> Entry {
    Entry { name: name.to_string(), is_dir: false, mode: Some(0o755) }
}

fn values(suggestions: &Vec<Suggestion>) -> Vec<String> {
    suggestions.iter().map(|s| s.value.clone()).collect()
}

fn plain(value: &str) -> Suggestion {
    Suggestion {
        value: value.to_string(),
        description: None,
        span: Span { start: 0, end: 0 },
        append_whitespace: true,
    }
}

#[test]
fn first_word_after_leading_whitespace() {
    let ctx = context("  cd", 4);
    assert_eq!(
        ctx,
        CompletionContext { word_start: 2, prefix: "cd".to_string(), is_first_word: true }
    );
    assert_eq!(listing_for(&ctx), Listing::Commands);
}

#[test]
fn second_word_is_a_path() {
    let ctx = context("ls src", 6);
    assert_eq!(
        ctx,
        CompletionContext { word_start: 3, prefix: "src".to_string(), is_first_word: false }
    );
    assert_eq!(listing_for(&ctx), Listing::Directory(".".to_string()));
}

#[test]
fn second_word_searches_current_directory_for_prefix() {
    let entries = vec![file("src.txt"), dir("src"), file("main.rs"), file("sr")];
    let got = AeroCompleter.complete("ls src", 6, &entries);
    assert_eq!(values(&got), vec!["src.txt".to_string(), "src/".to_string()]);
    for s in &got {
        assert_eq!(s.span, Span { start: 3, end: 6 });
        assert!(!s.append_whitespace);
        assert_eq!(s.description, None);
    }
}

#[test]
fn trailing_slash_lists_the_directory() {
    let ctx = context("cat src/", 8);
    assert_eq!(ctx.prefix, "src/");
    assert!(!ctx.is_first_word);
    assert_eq!(listing_for(&ctx), Listing::Directory("src/".to_string()));

    let entries = vec![file("main.rs"), dir("bin"), file("lib.rs")];
    let got = AeroCompleter.complete("cat src/", 8, &entries);
    assert_eq!(
        values(&got),
        vec!["src/bin/".to_string(), "src/lib.rs".to_string(), "src/main.rs".to_string()]
    );
    for s in &got {
        assert_eq!(s.span, Span { start: 4, end: 8 });
        assert!(!s.append_whitespace);
    }
}

#[test]
fn path_prefix_is_split_at_the_last_slash() {
    let ctx = context("vim a/b/ma", 10);
    assert_eq!(listing_for(&ctx), Listing::Directory("a/b/".to_string()));
    let entries = vec![file("main.rs"), file("other"), dir("mac")];
    let got = AeroCompleter.complete("vim a/b/ma", 10, &entries);
    assert_eq!(values(&got), vec!["a/b/mac/".to_string(), "a/b/main.rs".to_string()]);
}

#[test]
fn commands_from_path_and_builtins() {
    let entries = vec![command("cat"), command("chmod"), command("ls"), command("clear")];
    let got = AeroCompleter.complete("c", 1, &entries);
    assert_eq!(
        values(&got),
        vec![
            "cat".to_string(),
            "cd".to_string(),
            "chmod".to_string(),
            "clear".to_string(),
            "config".to_string()
        ]
    );
    for s in &got {
        assert_eq!(s.span, Span { start: 0, end: 1 });
        assert!(s.append_whitespace);
    }
    assert_eq!(got[0].description, None);
    assert_eq!(got[1].description, Some("Built-in".to_string()));
    assert_eq!(got[4].description, Some("Built-in".to_string()));
    // `clear` was found on the search path before the built-in was added.
    assert_eq!(got[3].description, None);
}

#[test]
fn empty_line_offers_every_command() {
    let got = AeroCompleter.complete("", 0, &Vec::new());
    assert_eq!(
        values(&got),
        vec![
            "cd".to_string(),
            "clear".to_string(),
            "config".to_string(),
            "exit".to_string(),
            "help".to_string(),
            "theme".to_string()
        ]
    );
}

#[test]
fn same_command_in_two_directories_is_suggested_once() {
    let entries = vec![command("python"), command("perl"), command("python"), command("pip")];
    let got = AeroCompleter.complete("py", 2, &entries);
    assert_eq!(values(&got), vec!["python".to_string()]);
}

#[test]
fn completing_twice_gives_the_same() {
    let entries = vec![file("b"), file("a"), dir("c"), file("a")];
    let first = AeroCompleter.complete("x ", 2, &entries);
    let second = AeroCompleter.complete("x ", 2, &entries);
    assert_eq!(first, second);
    assert_eq!(values(&first), vec!["a".to_string(), "b".to_string(), "c/".to_string()]);
}

#[test]
fn no_candidates_is_an_empty_result() {
    let got = AeroCompleter.complete("ls zz", 5, &vec![file("a"), file("b")]);
    assert!(got.is_empty());
}

#[test]
fn cursor_inside_the_line() {
    let ctx = context("git status", 2);
    assert_eq!(
        ctx,
        CompletionContext { word_start: 0, prefix: "gi".to_string(), is_first_word: true }
    );
    let ctx = context("git status", 4);
    assert_eq!(
        ctx,
        CompletionContext { word_start: 4, prefix: "".to_string(), is_first_word: false }
    );
}

#[test]
fn offsets_count_bytes_not_characters() {
    // "é" takes two bytes, the ideographic space three.
    let line = "écho\u{3000}né";
    let ctx = context(line, line.len());
    assert_eq!(
        ctx,
        CompletionContext { word_start: 8, prefix: "né".to_string(), is_first_word: false }
    );
    let ctx = context(line, 5);
    assert_eq!(
        ctx,
        CompletionContext { word_start: 0, prefix: "écho".to_string(), is_first_word: true }
    );
}

#[test]
fn candidates_keep_the_order_of_the_listing() {
    let ctx = context("e", 1);
    let found = candidates(&ctx, 1, &vec![command("env"), command("awk"), command("echo")]);
    assert_eq!(values(&found), vec!["env".to_string(), "echo".to_string(), "exit".to_string()]);
}

#[test]
fn finalize_sorts_by_bytes_and_keeps_the_first_of_equals() {
    let mut second_b = plain("b");
    second_b.description = Some("later".to_string());
    let got = finalize(vec![plain("b"), plain("a"), second_b, plain("Z"), plain("é"), plain("z")]);
    assert_eq!(
        values(&got),
        vec!["Z".to_string(), "a".to_string(), "b".to_string(), "z".to_string(), "é".to_string()]
    );
    assert_eq!(got[2].description, None);
}

#[test]
fn finalize_agrees_with_sort_and_dedup() {
    let names = ["pear", "apple", "fig", "apple", "Pear", "", "fig", "figs", "f"];
    let got = finalize(names.iter().map(|n| plain(n)).collect());
    let mut expected: Vec<String> = names.iter().map(|n| n.to_string()).collect();
    expected.sort();
    expected.dedup();
    assert_eq!(values(&got), expected);
}

/// Every string over `alphabet` of at most `max` characters.
fn strings_over(alphabet: &[char], max: usize) -> Vec<String> {
    let mut all = vec![String::new()];
    let mut last = vec![String::new()];
    for _ in 0..max {
        let mut next = Vec::new();
        for s in &last {
            for c in alphabet {
                let mut t = s.clone();
                t.push(*c);
                next.push(t);
            }
        }
        all.extend(next.iter().cloned());
        last = next;
    }
    all
}

#[test]
fn context_agrees_with_searching_back_for_white_space() {
    for line in strings_over(&['a', ' ', 'é', '\u{3000}', '/'], 5) {
        for pos in 0..=line.len() {
            if !line.is_char_boundary(pos) {
                assert_eq!(completion_context(&line, pos), None);
                continue;
            }
            let start = line[..pos]
                .char_indices()
                .rev()
                .find(|(_, c)| c.is_whitespace())
                .map(|(i, c)| i + c.len_utf8())
                .unwrap_or(0);
            let expected = CompletionContext {
                word_start: start,
                prefix: line[start..pos].to_string(),
                is_first_word: line[..start].chars().all(|c| c.is_whitespace()),
            };
            assert_eq!(context(&line, pos), expected, "{:?} at {}", line, pos);
        }
    }
}

#[test]
fn listing_agrees_with_splitting_at_the_last_slash() {
    for prefix in strings_over(&['a', '/', '.'], 5) {
        let line = format!("x {}", prefix);
        let ctx = context(&line, line.len());
        assert_eq!(ctx.prefix, prefix);
        let dir = match prefix.rfind('/') {
            Some(i) => &prefix[..=i],
            None => "",
        };
        let expected = if dir.is_empty() { "." } else { dir };
        assert_eq!(listing_for(&ctx), Listing::Directory(expected.to_string()));
    }
}

#[test]
fn completion_ignores_the_order_of_the_listing() {
    let entries = vec![command("cat"), dir("cd"), file("clear"), command("cat"), command("cx")];
    let mut reversed = entries.clone();
    reversed.reverse();
    for (line, pos) in [("c", 1), ("", 0), ("ls c", 4), ("ls ", 3)] {
        assert_eq!(
            AeroCompleter.complete(line, pos, &entries),
            AeroCompleter.complete(line, pos, &reversed)
        );
    }
}

#[test]
fn offsets_that_are_no_place_for_the_cursor() {
    let entries = vec![command("éa"), command("cd")];
    // Inside the two bytes of "é".
    assert_eq!(completion_context("é", 1), None);
    assert!(AeroCompleter.complete("é", 1, &entries).is_empty());
    // Beyond the end of the line.
    assert_eq!(completion_context("cd", 3), None);
    assert!(AeroCompleter.complete("cd", 3, &entries).is_empty());
    assert!(AeroCompleter.complete("", 1, &entries).is_empty());
    assert!(AeroCompleter.complete("", usize::MAX, &entries).is_empty());
    // The end of the line is a place for the cursor.
    assert_eq!(values(&AeroCompleter.complete("é", 2, &entries)), vec!["éa".to_string()]);
}

#[test]
fn only_executables_are_commands() {
    let entries = vec![
        command("run"),
        file("readme"),
        dir("rules"),
        Entry { name: "raw".to_string(), is_dir: false, mode: None },
        Entry { name: "rx".to_string(), is_dir: false, mode: Some(0o001) },
        Entry { name: "rg".to_string(), is_dir: false, mode: Some(0o010) },
        Entry { name: "ro".to_string(), is_dir: false, mode: Some(0o100) },
        Entry { name: "rw".to_string(), is_dir: false, mode: Some(0o666) },
        Entry { name: "rd".to_string(), is_dir: true, mode: None },
    ];
    let got = AeroCompleter.complete("r", 1, &entries);
    assert_eq!(
        values(&got),
        vec!["rg".to_string(), "ro".to_string(), "run".to_string(), "rx".to_string()]
    );
    for entry in &entries {
        let expected = entry.name == "run" || entry.name.len() == 2 && entry.mode.is_some()
            && entry.mode != Some(0o666);
        assert_eq!(entry_is_command(entry), expected, "{:?}", entry);
    }
}

#[test]
fn paths_do_not_ask_for_executables() {
    let entries = vec![
        command("run"),
        file("readme"),
        dir("rules"),
        Entry { name: "raw".to_string(), is_dir: false, mode: None },
    ];
    let got = AeroCompleter.complete("cat r", 5, &entries);
    assert_eq!(
        values(&got),
        vec!["raw".to_string(), "readme".to_string(), "rules/".to_string(), "run".to_string()]
    );
}

#[test]
fn a_directory_is_listed_whole() {
    let entries =
        vec![file("b"), dir("a"), command("c"), file(".hidden"), file("a.txt"), dir("é")];
    for (line, at) in [("ls src/", "src/"), ("ls ", ""), ("cat /", "/"), ("x a/b/", "a/b/")] {
        let got = AeroCompleter.complete(line, line.len(), &entries);
        assert_eq!(got.len(), entries.len());
        for entry in &entries {
            let mut value = format!("{}{}", at, entry.name);
            if entry.is_dir {
                value.push('/');
            }
            assert_eq!(got.iter().filter(|s| s.value == value).count(), 1, "{:?}", value);
        }
    }
}
