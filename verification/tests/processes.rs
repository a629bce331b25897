use aeroshell::processes::{
    contains, matching_processes, memory_order, name_matches, process_query, targets_of,
    top_by_memory, ProcessQuery,
};

fn words(list: &[&str]) -> Vec<String> {
    list.iter().map(|w| w.to_string()).collect()
}

#[test]
fn queries() {
    assert_eq!(process_query(&vec![]), ProcessQuery::Usage);
    assert_eq!(process_query(&words(&["mem"])), ProcessQuery::Memory);
    assert_eq!(process_query(&words(&["cpu", "x"])), ProcessQuery::Cpu);
    assert_eq!(process_query(&words(&["gpu"])), ProcessQuery::Gpu);
    assert_eq!(
        process_query(&words(&["firefox,", "discord"])),
        ProcessQuery::Search(words(&["firefox", "discord"]))
    );
    assert_eq!(process_query(&words(&["Mem"])), ProcessQuery::Search(words(&["Mem"])));
}

#[test]
fn search_targets() {
    assert_eq!(targets_of(&words(&["firefox"])), words(&["firefox"]));
    assert_eq!(targets_of(&words(&["a", "b,c"])), words(&["a b", "c"]));
    assert_eq!(targets_of(&words(&["a,", ",b"])), words(&["a", "", "b"]));
    assert_eq!(targets_of(&words(&[","])), words(&["", ""]));
    assert_eq!(targets_of(&vec![]), words(&[""]));
}

#[test]
fn substring_search() {
    let hay: Vec<char> = "firefox".chars().collect();
    for (pat, expected) in
        [("", true), ("f", true), ("fox", true), ("firefox", true), ("firefoxx", false), ("ff", false)]
    {
        assert_eq!(contains(&hay, &pat.chars().collect()), expected);
    }
    assert!(contains(&vec![], &vec![]));
    assert!(!contains(&vec![], &vec!['a']));
}

#[test]
fn names_match_in_any_case() {
    assert!(name_matches("Firefox", &words(&["fire"])));
    assert!(name_matches("firefox", &words(&["disc", "FOX"])));
    assert!(!name_matches("firefox", &words(&["disc", "chrome"])));
    assert!(!name_matches("firefox", &vec![]));
    assert!(name_matches("firefox", &words(&[""])));
    assert!(name_matches("ÉCOLE", &words(&["école"])));
}

#[test]
fn matching_keeps_the_order_of_the_table() {
    let names = words(&["systemd", "Firefox", "bash", "firefox-bin", "discord"]);
    assert_eq!(matching_processes(&names, &words(&["fire", "DISC"])), vec![1, 3, 4]);
    assert_eq!(matching_processes(&names, &words(&["zzz"])), Vec::<usize>::new());
    assert_eq!(matching_processes(&names, &words(&[""])), vec![0, 1, 2, 3, 4]);
}

#[test]
fn most_memory_first() {
    let memory = vec![10, 30, 20, 30, 0, u64::MAX];
    assert_eq!(memory_order(&memory), vec![5, 1, 3, 2, 0, 4]);
    assert_eq!(top_by_memory(&memory, 3), vec![5, 1, 3]);
    assert_eq!(top_by_memory(&memory, 0), Vec::<usize>::new());
    assert_eq!(top_by_memory(&memory, 10), vec![5, 1, 3, 2, 0, 4]);
    assert_eq!(top_by_memory(&vec![], 10), Vec::<usize>::new());
}

#[test]
fn memory_order_agrees_with_a_stable_sort() {
    let memory: Vec<u64> = (0..50u64).map(|i| (i * 7919) % 13).collect();
    let mut expected: Vec<usize> = (0..memory.len()).collect();
    expected.sort_by(|a, b| memory[*b].cmp(&memory[*a]));
    assert_eq!(memory_order(&memory), expected);
    assert_eq!(top_by_memory(&memory, 10), expected[..10].to_vec());
}

#[test]
fn matching_agrees_with_filtering() {
    let names = words(&["Xorg", "xterm", "Thunderbird", "bird", "ÉCOLE", ""]);
    for targets in [words(&["x"]), words(&["BIRD", "école"]), words(&[]), words(&["", "q"])] {
        let expected: Vec<usize> = (0..names.len())
            .filter(|i| {
                let name = names[*i].to_lowercase();
                targets.iter().any(|t| name.contains(&t.to_lowercase()))
            })
            .collect();
        assert_eq!(matching_processes(&names, &targets), expected);
    }
}
