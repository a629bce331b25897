//! The colored directory listing of `ls`.
//!
//! The caller reads the directory; this module orders the entries, picks
//! each entry's color from the configuration, and writes the line.

use crate::color::{ansi_of, get_ansi_from_config, reset_escape, reset_text};
use crate::config::RootConfig;
use crate::encoding::{lemma_text_lt_is_strict_total_order, order_of_text, text_lt, Order};
use crate::files::{can_execute, is_executable};
use crate::order::{
    is_asymmetric, is_ordering, lemma_ordering_inserts, lemma_ordering_is_determined,
};
use crate::string_map::StringMap;
use crate::text::{
    after_last, from_chars, is_text, last_index_of, push_all, push_str, slice_chars, texts,
    to_chars,
};
use vstd::prelude::*;

verus! {

/// One entry of the listed directory.
#[derive(Clone, Debug, PartialEq, Eq)]
pub struct ListedFile {
    /// The entry's file name.
    pub name: String,
    /// Whether the entry is a directory.
    pub is_dir: bool,
    /// The permission bits of the entry, where they could be read.
    pub mode: Option<u32>,
}

/// A listed entry as plain values.
pub ghost struct ListedFileView {
    pub name: Seq<char>,
    pub is_dir: bool,
    pub mode: Option<u32>,
}

impl View for ListedFile {
    type V = ListedFileView;

    open spec fn view(&self) -> ListedFileView {
        ListedFileView { name: self.name@, is_dir: self.is_dir, mode: self.mode }
    }
}

/// The listed entries of `v` as plain values.
pub open spec fn file_views(v: Seq<ListedFile>) -> Seq<ListedFileView> {
    v.map_values(|f: ListedFile| f@)
}

/// The directory that `ls` lists: its first argument, or `.` without one.
pub open spec fn list_target(args: Seq<Seq<char>>) -> Seq<char> {
    if args.len() == 0 {
        seq!['.']
    } else {
        args[0]
    }
}

/// The directory that `ls` lists: see [`list_target`].
pub fn listing_target(args: &Vec<String>) -> (dir: String)
    ensures
        dir@ == list_target(texts(args@)),
{
    if args.len() == 0 {
        let mut out: Vec<char> = Vec::new();
        out.push('.');
        from_chars(&out)
    } else {
        assert(texts(args@)[0] == args@[0]@);
        args[0].clone()
    }
}

/// The extension of a file name: what follows its last `.`. A name without
/// a `.`, a name whose only `.` is its first character, and the name `..`
/// have none.
pub open spec fn extension_of(name: Seq<char>) -> Option<Seq<char>> {
    if last_index_of(name, '.') <= 0 || name == seq!['.', '.'] {
        None
    } else {
        Some(name.skip(last_index_of(name, '.') + 1))
    }
}

/// The key under which a file's color is looked up. A directory has the
/// key `directory`. Of any other entry whose permission bits could be read:
/// it has the key `executable` if it is executable, else `default`; but an
/// extension decides before that, by the first of these that applies: the
/// key `file.` and the extension, if the configuration has it; the
/// extension itself, if the configuration has it; for the extensions `py`,
/// `sh`, `rs` and `js` the keys `python`, `shellscript`, `rust` and
/// `javascript`, if the configuration has the key. An entry whose
/// permission bits could not be read has the key `default`.
pub open spec fn color_key(file: ListedFileView, files: Map<Seq<char>, Seq<char>>) -> Seq<char> {
    if file.is_dir {
        "directory"@
    } else if file.mode is None {
        "default"@
    } else {
        let fallback = if is_executable(file.mode->0) {
            "executable"@
        } else {
            "default"@
        };
        match extension_of(file.name) {
            None => fallback,
            Some(ext) => if files.contains_key("file."@ + ext) {
                "file."@ + ext
            } else if files.contains_key(ext) {
                ext
            } else if ext == "py"@ && files.contains_key("python"@) {
                "python"@
            } else if ext == "sh"@ && files.contains_key("shellscript"@) {
                "shellscript"@
            } else if ext == "rs"@ && files.contains_key("rust"@) {
                "rust"@
            } else if ext == "js"@ && files.contains_key("javascript"@) {
                "javascript"@
            } else {
                fallback
            },
        }
    }
}

/// The name of the color of the files with the key `key`: what the
/// configuration gives the key, else what it gives the key `default`, else
/// `white`.
pub open spec fn color_name(key: Seq<char>, files: Map<Seq<char>, Seq<char>>) -> Seq<char> {
    if files.contains_key(key) {
        files[key]
    } else if files.contains_key("default"@) {
        files["default"@]
    } else {
        "white"@
    }
}

/// One entry of the listing: the escape sequence of the file's color, the
/// name, the reset sequence, and two spaces.
pub open spec fn cell(file: ListedFileView, config: RootConfig) -> Seq<char> {
    ansi_of(color_name(color_key(file, config.theme.files@), config.theme.files@), config.colors@)
        + file.name + reset_escape() + seq![' ', ' ']
}

/// The extension of the file name `name`: see [`extension_of`].
pub fn extension(name: &Vec<char>) -> (r: Option<Vec<char>>)
    ensures
        match r {
            Some(ext) => extension_of(name@) == Some(ext@),
            None => extension_of(name@) is None,
        },
{
    let cut = after_last(name, '.');
    if cut <= 1 || (name.len() == 2 && name[0] == '.' && name[1] == '.') {
        proof {
            if name.len() == 2 && name[0] == '.' && name[1] == '.' {
                assert(name@ == seq!['.', '.']);
            }
        }
        None
    } else {
        assert(name@ != seq!['.', '.']) by {
            if name@ == seq!['.', '.'] {
                assert(name@.len() == 2 && name@[0] == '.' && name@[1] == '.');
            }
        }
        Some(slice_chars(name, cut, name.len()))
    }
}

/// The key under which the color of `file` is looked up in `files`: see
/// [`color_key`].
pub fn file_color_key(file: &ListedFile, files: &StringMap) -> (key: String)
    ensures
        key@ == color_key(file@, files@),
{
    if file.is_dir {
        return "directory".to_owned();
    }
    let mode = match file.mode {
        Some(m) => m,
        None => {
            return "default".to_owned();
        },
    };
    let fallback = if can_execute(mode) {
        "executable"
    } else {
        "default"
    };
    let name = to_chars(file.name.as_str());
    match extension(&name) {
        None => fallback.to_owned(),
        Some(ext) => {
            let mut file_key: Vec<char> = Vec::new();
            push_str(&mut file_key, "file.");
            push_all(&mut file_key, &ext);
            let file_key = from_chars(&file_key);
            let plain_key = from_chars(&ext);
            if files.contains_key(file_key.as_str()) {
                file_key
            } else if files.contains_key(plain_key.as_str()) {
                plain_key
            } else if is_text(&ext, "py") && files.contains_key("python") {
                "python".to_owned()
            } else if is_text(&ext, "sh") && files.contains_key("shellscript") {
                "shellscript".to_owned()
            } else if is_text(&ext, "rs") && files.contains_key("rust") {
                "rust".to_owned()
            } else if is_text(&ext, "js") && files.contains_key("javascript") {
                "javascript".to_owned()
            } else {
                fallback.to_owned()
            }
        },
    }
}

/// The name of the color of the files with the key `key`: see
/// [`color_name`].
pub fn file_color_name(key: &str, files: &StringMap) -> (name: String)
    ensures
        name@ == color_name(key@, files@),
{
    match files.get(key) {
        Some(name) => name.clone(),
        None => match files.get("default") {
            Some(name) => name.clone(),
            None => "white".to_owned(),
        },
    }
}

/// Appends [`cell`] of `file` to `out`.
pub fn push_cell(out: &mut Vec<char>, file: &ListedFile, config: &RootConfig)
    ensures
        final(out)@ == old(out)@ + cell(file@, *config),
{
    let key = file_color_key(file, &config.theme.files);
    let name = file_color_name(key.as_str(), &config.theme.files);
    let ansi = get_ansi_from_config(name.as_str(), config);
    let reset = reset_text();
    let ghost before = out@;
    push_str(out, ansi.as_str());
    push_str(out, file.name.as_str());
    push_all(out, &reset);
    out.push(' ');
    out.push(' ');
    assert(out@ == before + cell(file@, *config));
}

/// Whether the entry at position `a` is listed before the one at position
/// `b`: its name comes first in the lexicographic order of bytes, or the
/// names are equal and `a` is the earlier position.
pub open spec fn listed_before(names: Seq<Seq<char>>, a: usize, b: usize) -> bool {
    text_lt(names[a as int], names[b as int]) || (names[a as int] == names[b as int] && a < b)
}

/// [`listed_before`] as a relation between positions.
pub open spec fn by_name(names: Seq<Seq<char>>) -> spec_fn(usize, usize) -> bool {
    |a: usize, b: usize| listed_before(names, a, b)
}

/// Whether `order` lists every position of `names` once, sorted by name,
/// positions with equal names in their own order.
pub open spec fn is_name_order(order: Seq<usize>, names: Seq<Seq<char>>) -> bool {
    is_ordering(order, names.len(), by_name(names))
}

/// Of two entries at most one is listed before the other.
pub proof fn lemma_by_name_is_asymmetric(names: Seq<Seq<char>>)
    ensures
        is_asymmetric(by_name(names)),
{
    assert forall|x: usize, y: usize| !(#[trigger] by_name(names)(x, y) && by_name(names)(y, x)) by {
        lemma_text_lt_is_strict_total_order(names[x as int], names[y as int], names[x as int]);
    }
}

/// The order in which `names` are listed: the positions of the names,
/// sorted by name in the lexicographic order of bytes, equal names in the
/// order in which they stand.
pub fn name_order(names: &Vec<String>) -> (order: Vec<usize>)
    ensures
        is_name_order(order@, texts(names@)),
{
    let ghost all = texts(names@);
    let mut order: Vec<usize> = Vec::new();
    let mut n: usize = 0;
    while n < names.len()
        invariant
            n <= names.len(),
            all == texts(names@),
            is_ordering(order@, n as nat, by_name(all)),
        decreases names.len() - n,
    {
        let mut p: usize = 0;
        let mut placed = false;
        while p < order.len() && !placed
            invariant
                p <= order.len(),
                n < names.len(),
                all == texts(names@),
                is_ordering(order@, n as nat, by_name(all)),
                forall|i: int| 0 <= i < p ==> listed_before(all, #[trigger] order@[i], n),
                placed ==> p < order.len() && text_lt(all[n as int], all[order@[p as int] as int]),
            decreases order.len() - p, (if placed { 0int } else { 1int }),
        {
            let other = order[p];
            assert(all[other as int] == names@[other as int]@);
            assert(all[n as int] == names@[n as int]@);
            match order_of_text(names[n].as_str(), names[other].as_str()) {
                Order::Less => {
                    placed = true;
                },
                Order::Equal => {
                    p += 1;
                },
                Order::Greater => {
                    p += 1;
                },
            }
        }
        proof {
            assert forall|i: int| p <= i < order@.len() implies listed_before(
                all,
                n,
                #[trigger] order@[i],
            ) by {
                if i > p {
                    assert(by_name(all)(order@[p as int], order@[i]));
                    lemma_text_lt_is_strict_total_order(
                        all[n as int],
                        all[order@[p as int] as int],
                        all[order@[i] as int],
                    );
                }
            }
            assert forall|i: int| 0 <= i < p implies by_name(all)(#[trigger] order@[i], n) by {}
            assert forall|i: int| p <= i < order@.len() implies by_name(all)(
                n,
                #[trigger] order@[i],
            ) by {}
            lemma_ordering_inserts(order@, n, by_name(all), p as int);
        }
        order.insert(p, n);
        n += 1;
    }
    order
}

/// The names of the listed files.
pub open spec fn names_of(files: Seq<ListedFileView>) -> Seq<Seq<char>> {
    files.map_values(|f: ListedFileView| f.name)
}

/// The cells of the files at the positions `order`, one after the other.
pub open spec fn cells(order: Seq<usize>, files: Seq<ListedFileView>, config: RootConfig) -> Seq<
    char,
>
    decreases order.len(),
{
    if order.len() == 0 {
        Seq::empty()
    } else {
        cells(order.drop_last(), files, config) + cell(files[order.last() as int], config)
    }
}

/// Whether `line` is the listing of `files`: their cells, in the order of
/// their names.
pub open spec fn is_listing(line: Seq<char>, files: Seq<ListedFileView>, config: RootConfig)
    -> bool {
    exists|order: Seq<usize>|
        is_name_order(order, names_of(files)) && line == cells(order, files, config)
}

/// The line that `ls` prints for the entries `files` of a directory: for
/// each entry its name in its color, in the order of the names.
pub fn render_listing(files: &Vec<ListedFile>, config: &RootConfig) -> (line: String)
    ensures
        is_listing(line@, file_views(files@), *config),
{
    let mut names: Vec<String> = Vec::new();
    let mut i: usize = 0;
    while i < files.len()
        invariant
            i <= files.len(),
            texts(names@) == names_of(file_views(files@)).take(i as int),
        decreases files.len() - i,
    {
        let ghost before = texts(names@);
        names.push(files[i].name.clone());
        assert(texts(names@) == before.push(files@[i as int].name@));
        i += 1;
    }
    assert(names_of(file_views(files@)).take(files.len() as int) == names_of(file_views(files@)));
    let order = name_order(&names);
    let mut out: Vec<char> = Vec::new();
    let mut k: usize = 0;
    assert(order@.take(0) == Seq::<usize>::empty());
    while k < order.len()
        invariant
            k <= order.len(),
            is_name_order(order@, names_of(file_views(files@))),
            out@ == cells(order@.take(k as int), file_views(files@), *config),
        decreases order.len() - k,
    {
        assert(order@.take(k + 1).drop_last() == order@.take(k as int));
        assert(order@[k as int] < files.len());
        push_cell(&mut out, &files[order[k]], config);
        k += 1;
    }
    assert(order@.take(order.len() as int) == order@);
    from_chars(&out)
}

/// The names determine the order in which they are listed.
pub proof fn lemma_name_order_is_determined(
    names: Seq<Seq<char>>,
    first: Seq<usize>,
    second: Seq<usize>,
)
    requires
        is_name_order(first, names),
        is_name_order(second, names),
    ensures
        first == second,
{
    lemma_by_name_is_asymmetric(names);
    lemma_ordering_is_determined(names.len(), by_name(names), first, second);
}

/// The entries and the configuration determine the listing: two lines that
/// are listings of the same entries under the same configuration are
/// equal.
pub proof fn lemma_listing_is_determined(
    files: Seq<ListedFileView>,
    config: RootConfig,
    first: Seq<char>,
    second: Seq<char>,
)
    requires
        is_listing(first, files, config),
        is_listing(second, files, config),
    ensures
        first == second,
{
    let a = choose|order: Seq<usize>|
        is_name_order(order, names_of(files)) && first == cells(order, files, config);
    let b = choose|order: Seq<usize>|
        is_name_order(order, names_of(files)) && second == cells(order, files, config);
    lemma_name_order_is_determined(names_of(files), a, b);
}

} // verus!
