use aeroshell::config::RootConfig;
use aeroshell::listing::{
    extension, file_color_key, file_color_name, listing_target, name_order, render_listing,
    ListedFile,
};
use aeroshell::string_map::StringMap;

fn file(name: &str, mode: u32) -> ListedFile {
    ListedFile { name: name.to_string(), is_dir: false, mode: Some(mode) }
}

fn dir(name: &str) -> ListedFile {
    ListedFile { name: name.to_string(), is_dir: true, mode: Some(0o755) }
}

fn ext(name: &str) -> Option<String> {
    extension(&name.chars().collect()).map(|e| e.into_iter().collect())
}

#[test]
fn target_of_the_listing() {
    assert_eq!(listing_target(&vec![]), ".");
    assert_eq!(listing_target(&vec!["src".to_string(), "doc".to_string()]), "src");
}

#[test]
fn extension_agrees_with_the_standard_library() {
    for name in
        ["a.rs", "a", ".bashrc", ".bashrc.bak", "a.", "a.tar.gz", "..", "...", "..a", ".", "", "é.py"]
    {
        let expected = std::path::Path::new(name)
            .extension()
            .map(|e| e.to_string_lossy().to_string());
        assert_eq!(ext(name), expected, "{:?}", name);
    }
}

#[test]
fn color_keys() {
    let files = RootConfig::default(None).theme.files;
    assert_eq!(file_color_key(&dir("src"), &files), "directory");
    assert_eq!(file_color_key(&dir("old.zip"), &files), "directory");
    assert_eq!(file_color_key(&file("notes", 0o644), &files), "default");
    assert_eq!(file_color_key(&file("run", 0o755), &files), "executable");
    assert_eq!(file_color_key(&file("run", 0o001), &files), "executable");
    assert_eq!(file_color_key(&file("a.zip", 0o644), &files), "file.zip");
    assert_eq!(file_color_key(&file("a.iso", 0o755), &files), "file.iso");
    assert_eq!(file_color_key(&file("Cargo.toml", 0o644), &files), "toml");
    assert_eq!(file_color_key(&file("a.json", 0o644), &files), "json");
    assert_eq!(file_color_key(&file("a.py", 0o644), &files), "python");
    assert_eq!(file_color_key(&file("a.sh", 0o755), &files), "shellscript");
    assert_eq!(file_color_key(&file("a.rs", 0o644), &files), "rust");
    assert_eq!(file_color_key(&file("a.js", 0o644), &files), "javascript");
    assert_eq!(file_color_key(&file("a.txt", 0o644), &files), "default");
    assert_eq!(file_color_key(&file("a.txt", 0o700), &files), "executable");
    assert_eq!(file_color_key(&file(".py", 0o644), &files), "default");
    assert_eq!(file_color_key(&file("a.rust", 0o644), &files), "rust");
    let unread = ListedFile { name: "a.py".to_string(), is_dir: false, mode: None };
    assert_eq!(file_color_key(&unread, &files), "default");
}

#[test]
fn color_keys_without_the_usual_entries() {
    let mut files = StringMap::new();
    files.insert("py".to_string(), "green".to_string());
    assert_eq!(file_color_key(&file("a.py", 0o644), &files), "py");
    assert_eq!(file_color_key(&file("a.rs", 0o644), &files), "default");
    assert_eq!(file_color_key(&file("a.rs", 0o755), &files), "executable");
    files.insert("file.py".to_string(), "red".to_string());
    assert_eq!(file_color_key(&file("a.py", 0o644), &files), "file.py");
}

#[test]
fn color_names() {
    let files = RootConfig::default(None).theme.files;
    assert_eq!(file_color_name("directory", &files), "blue");
    assert_eq!(file_color_name("nosuchkey", &files), "white");
    let mut sparse = StringMap::new();
    assert_eq!(file_color_name("directory", &sparse), "white");
    sparse.insert("default".to_string(), "cyan".to_string());
    assert_eq!(file_color_name("directory", &sparse), "cyan");
}

#[test]
fn names_are_ordered_by_bytes() {
    let names: Vec<String> =
        ["b", "a", "B", "é", "a", "", "ab"].iter().map(|n| n.to_string()).collect();
    assert_eq!(name_order(&names), vec![5, 2, 1, 4, 6, 0, 3]);
    assert_eq!(name_order(&vec![]), Vec::<usize>::new());
}

#[test]
fn listing_line() {
    let config = RootConfig::default(None);
    let files = vec![file("main.rs", 0o644), dir("docs"), file("a.out", 0o755)];
    assert_eq!(
        render_listing(&files, &config),
        "\x1B[38;2;255;165;0ma.out\x1B[0m  \x1B[38;2;0;0;255mdocs\x1B[0m  \x1B[38;2;255;0;0mmain.rs\x1B[0m  "
    );
    assert_eq!(render_listing(&vec![], &config), "");
}

#[test]
fn name_order_agrees_with_a_stable_sort() {
    let names: Vec<String> = ["b", "a", "B", "é", "a", "", "ab", "b", "a", "~", "Z", "é"]
        .iter()
        .map(|n| n.to_string())
        .collect();
    let mut expected: Vec<usize> = (0..names.len()).collect();
    expected.sort_by_key(|i| names[*i].clone());
    assert_eq!(name_order(&names), expected);
}
