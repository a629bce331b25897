//! The completion engine.
//!
//! Given the input line and the cursor's byte offset, the engine finds the
//! word under the cursor, decides whether it is the first word of the line,
//! and proposes replacements for it: command names for a first word, paths
//! for any other. Listing directories is left to the caller:
//! [`listing_for`] says what is to be listed, and
//! [`AeroCompleter::complete`] takes the entries that were found.

use crate::encoding::{
    byte_len, char_index, char_width, lemma_boundary_is_char_boundary, lemma_byte_len_push,
    lemma_byte_len_take_increases, lemma_char_boundary_is_boundary, lemma_char_index_is,
    lemma_text_lt_is_strict_total_order, order_of_text, text_lt, Order,
};
use crate::files::{can_execute, is_executable};
use crate::text::{
    after_last, all_whitespace, char_is_whitespace, from_chars, is_prefix, is_whitespace,
    last_index_of, lemma_last_index_of_bounds, lemma_trim_empty_iff_all_whitespace, push_all,
    slice_chars, starts_with, to_chars, trim, trimmed,
};
use vstd::prelude::*;
use vstd::utf8::{encode_utf8, is_char_boundary};

verus! {

/// The part of the line that a suggestion replaces, in byte offsets.
#[derive(Clone, Copy, Debug, PartialEq, Eq, Structural)]
pub struct Span {
    pub start: usize,
    pub end: usize,
}

/// One proposed completion.
#[derive(Clone, Debug, PartialEq, Eq)]
pub struct Suggestion {
    /// The text that replaces the span.
    pub value: String,
    /// What the suggestion is, for display.
    pub description: Option<String>,
    /// The part of the line that the text replaces.
    pub span: Span,
    /// Whether a space follows the text once it is accepted.
    pub append_whitespace: bool,
}

/// A suggestion as plain values.
pub ghost struct SuggestionView {
    pub value: Seq<char>,
    pub description: Option<Seq<char>>,
    pub start: int,
    pub end: int,
    pub append_whitespace: bool,
}

impl View for Suggestion {
    type V = SuggestionView;

    open spec fn view(&self) -> SuggestionView {
        SuggestionView {
            value: self.value@,
            description: match self.description {
                Some(d) => Some(d@),
                None => None,
            },
            start: self.span.start as int,
            end: self.span.end as int,
            append_whitespace: self.append_whitespace,
        }
    }
}

/// The suggestions of `v` as plain values.
pub open spec fn suggestion_views(v: Seq<Suggestion>) -> Seq<SuggestionView> {
    v.map_values(|s: Suggestion| s@)
}

/// One entry of a directory, as a listing reports it.
#[derive(Clone, Debug, PartialEq, Eq)]
pub struct Entry {
    /// The entry's file name.
    pub name: String,
    /// Whether the entry is itself a directory.
    pub is_dir: bool,
    /// The permission bits of the entry, where they could be read.
    pub mode: Option<u32>,
}

/// A directory entry as plain values.
pub ghost struct EntryView {
    pub name: Seq<char>,
    pub is_dir: bool,
    pub mode: Option<u32>,
}

impl View for Entry {
    type V = EntryView;

    open spec fn view(&self) -> EntryView {
        EntryView { name: self.name@, is_dir: self.is_dir, mode: self.mode }
    }
}

/// The entries of `v` as plain values.
pub open spec fn entry_views(v: Seq<Entry>) -> Seq<EntryView> {
    v.map_values(|e: Entry| e@)
}

/// The word under the cursor and its place in the line.
#[derive(Clone, Debug, PartialEq, Eq)]
pub struct CompletionContext {
    /// The byte offset at which the word starts.
    pub word_start: usize,
    /// The word, from its start to the cursor.
    pub prefix: String,
    /// Whether only white space stands before the word.
    pub is_first_word: bool,
}

/// A completion context as plain values.
pub ghost struct ContextView {
    pub word_start: int,
    pub prefix: Seq<char>,
    pub is_first_word: bool,
}

impl View for CompletionContext {
    type V = ContextView;

    open spec fn view(&self) -> ContextView {
        ContextView {
            word_start: self.word_start as int,
            prefix: self.prefix@,
            is_first_word: self.is_first_word,
        }
    }
}

/// Where the word that ends before character `k` starts: going back from
/// `k`, the first position that has white space before it, or the start of
/// the line.
pub open spec fn word_start_index(s: Seq<char>, k: int) -> int
    decreases k,
{
    if k <= 0 {
        0
    } else if is_whitespace(s[k - 1]) {
        k
    } else {
        word_start_index(s, k - 1)
    }
}

/// The context of the cursor at byte offset `pos` in `line`: the word
/// reaches from its start to the cursor, and it is the first word where the
/// line before it, trimmed, is empty.
pub open spec fn context_of(line: Seq<char>, pos: int) -> ContextView {
    let end = char_index(line, pos);
    let start = word_start_index(line, end);
    ContextView {
        word_start: byte_len(line.take(start)) as int,
        prefix: line.subrange(start, end),
        is_first_word: trim(line.take(start)).len() == 0,
    }
}

/// The word under the cursor is the first word exactly where every
/// character before it is white space.
pub proof fn lemma_first_word_has_only_whitespace_before(line: Seq<char>, pos: int)
    ensures
        context_of(line, pos).is_first_word <==> all_whitespace(
            line.take(word_start_index(line, char_index(line, pos))),
        ),
{
    lemma_trim_empty_iff_all_whitespace(line.take(word_start_index(line, char_index(line, pos))));
}

/// Whether `pos` is a place for the cursor in `line`: a byte offset that
/// falls on a character boundary, the start and the end included.
pub open spec fn is_cursor(line: Seq<char>, pos: int) -> bool {
    is_char_boundary(encode_utf8(line), pos)
}

/// Finds the word under the cursor at byte offset `pos` in `line`: see
/// [`context_of`]. There is none where `pos` is no place for the cursor.
pub fn completion_context(line: &str, pos: usize) -> (r: Option<CompletionContext>)
    ensures
        r is Some <==> is_cursor(line@, pos as int),
        r matches Some(ctx) ==> {
            &&& ctx@ == context_of(line@, pos as int)
            &&& ctx.word_start <= pos
            &&& is_cursor(line@, ctx.word_start as int)
        },
{
    if !line.is_char_boundary(pos) {
        return None;
    }
    let chars = to_chars(line);
    let ghost s = line@;
    proof {
        lemma_char_boundary_is_boundary(s, pos as int);
    }
    let ghost end = char_index(s, pos as int);
    let n = chars.len();
    let mut k: usize = 0;
    let mut offset: usize = 0;
    let mut start: usize = 0;
    let mut start_offset: usize = 0;
    assert(s.take(0) == Seq::<char>::empty());
    while offset < pos
        invariant
            chars@ == s,
            n == s.len(),
            0 <= end <= s.len(),
            byte_len(s.take(end)) == pos,
            k <= end,
            offset == byte_len(s.take(k as int)),
            offset <= pos,
            start <= k,
            start == word_start_index(s, k as int),
            start_offset == byte_len(s.take(start as int)),
            start_offset <= offset,
        decreases pos - offset,
    {
        proof {
            assert(k < end);
            assert(s.take(k + 1) == s.take(k as int).push(s[k as int]));
            lemma_byte_len_push(s.take(k as int), s[k as int]);
            if k + 1 < end {
                lemma_byte_len_take_increases(s, k + 1, end);
            }
        }
        let c = chars[k];
        let w = char_width(c);
        offset = offset + w;
        k = k + 1;
        if char_is_whitespace(c) {
            start = k;
            start_offset = offset;
        }
    }
    proof {
        lemma_char_index_is(s, pos as int, k as int);
        lemma_boundary_is_char_boundary(s, start as int);
    }
    let word = slice_chars(&chars, start, k);
    let before = slice_chars(&chars, 0, start);
    let is_first_word = trimmed(&before).len() == 0;
    Some(CompletionContext { word_start: start_offset, prefix: from_chars(&word), is_first_word })
}

/// The directory portion of a path prefix: all of it up to the last `/`,
/// that `/` included; empty where it holds no `/`.
pub open spec fn dir_part(prefix: Seq<char>) -> Seq<char> {
    prefix.take(last_index_of(prefix, '/') + 1)
}

/// The file-name portion of a path prefix: what follows the last `/`; all
/// of it where it holds no `/`.
pub open spec fn file_part(prefix: Seq<char>) -> Seq<char> {
    prefix.skip(last_index_of(prefix, '/') + 1)
}

/// The directory that is searched for a path prefix: its directory portion,
/// or `.` where that is empty.
pub open spec fn search_dir(prefix: Seq<char>) -> Seq<char> {
    if dir_part(prefix).len() == 0 {
        "."@
    } else {
        dir_part(prefix)
    }
}

/// What the caller is to list before it asks for completions.
#[derive(Clone, Debug, PartialEq, Eq)]
pub enum Listing {
    /// Every directory of the search path for commands, one level deep.
    Commands,
    /// The one directory named, one level deep.
    Directory(String),
}

/// What is to be listed for the context `ctx`: the commands for a first
/// word, else the directory that the word's prefix points into.
pub fn listing_for(ctx: &CompletionContext) -> (l: Listing)
    ensures
        ctx.is_first_word ==> l == Listing::Commands,
        !ctx.is_first_word ==> (l matches Listing::Directory(d) && d@ == search_dir(ctx.prefix@)),
{
    if ctx.is_first_word {
        Listing::Commands
    } else {
        let prefix = to_chars(ctx.prefix.as_str());
        let cut = after_last(&prefix, '/');
        if cut == 0 {
            Listing::Directory(".".to_owned())
        } else {
            let dir = slice_chars(&prefix, 0, cut);
            Listing::Directory(from_chars(&dir))
        }
    }
}

/// The names of the commands that the shell itself carries out.
pub open spec fn builtin_commands() -> Seq<Seq<char>> {
    seq!["cd"@, "exit"@, "clear"@, "help"@, "config"@, "theme"@]
}

/// The suggestion for a command found on the search path: its name, no
/// description, a space after it.
pub open spec fn command_suggestion(name: Seq<char>, start: int, end: int) -> SuggestionView {
    SuggestionView { value: name, description: None, start, end, append_whitespace: true }
}

/// The suggestion for a built-in command: its name, the description
/// `Built-in`, a space after it.
pub open spec fn builtin_suggestion(name: Seq<char>, start: int, end: int) -> SuggestionView {
    SuggestionView {
        value: name,
        description: Some("Built-in"@),
        start,
        end,
        append_whitespace: true,
    }
}

/// The suggestion for a directory entry: the directory portion of the
/// prefix, then the entry's name, then a `/` where the entry is a
/// directory; no description, and no space after it.
pub open spec fn path_suggestion(dir: Seq<char>, entry: EntryView, start: int, end: int)
    -> SuggestionView {
    SuggestionView {
        value: dir + entry.name + if entry.is_dir {
            seq!['/']
        } else {
            Seq::<char>::empty()
        },
        description: None,
        start,
        end,
        append_whitespace: false,
    }
}

/// Whether the entry is an executable: a file, not a directory, that its
/// permission bits allow someone to execute. An entry whose permission bits
/// could not be read is none.
pub open spec fn is_command(entry: EntryView) -> bool {
    &&& !entry.is_dir
    &&& entry.mode matches Some(mode)
    &&& is_executable(mode)
}

/// The suggestions for the executables among the entries whose names begin
/// with `prefix`, in the order of the entries, as commands.
pub open spec fn command_matches(entries: Seq<EntryView>, prefix: Seq<char>, start: int, end: int)
    -> Seq<SuggestionView>
    decreases entries.len(),
{
    if entries.len() == 0 {
        Seq::empty()
    } else {
        let before = command_matches(entries.drop_last(), prefix, start, end);
        if is_command(entries.last()) && is_prefix(prefix, entries.last().name) {
            before.push(command_suggestion(entries.last().name, start, end))
        } else {
            before
        }
    }
}

/// The suggestions for the names that begin with `prefix`, in the order of
/// the names, as built-in commands.
pub open spec fn builtin_matches(names: Seq<Seq<char>>, prefix: Seq<char>, start: int, end: int)
    -> Seq<SuggestionView>
    decreases names.len(),
{
    if names.len() == 0 {
        Seq::empty()
    } else {
        let before = builtin_matches(names.drop_last(), prefix, start, end);
        if is_prefix(prefix, names.last()) {
            before.push(builtin_suggestion(names.last(), start, end))
        } else {
            before
        }
    }
}

/// The suggestions for the entries whose names begin with the file-name
/// portion `file`, in the order of the entries, as paths below `dir`.
pub open spec fn path_matches(
    entries: Seq<EntryView>,
    dir: Seq<char>,
    file: Seq<char>,
    start: int,
    end: int,
) -> Seq<SuggestionView>
    decreases entries.len(),
{
    if entries.len() == 0 {
        Seq::empty()
    } else {
        let before = path_matches(entries.drop_last(), dir, file, start, end);
        if is_prefix(file, entries.last().name) {
            before.push(path_suggestion(dir, entries.last(), start, end))
        } else {
            before
        }
    }
}

/// The candidates for the context `ctx` with the cursor at `pos`, before
/// they are sorted. For a first word: the executables among `entries`, then
/// the built-in commands. For any other word: the paths among `entries`.
/// All replace the word, from its start to the cursor.
pub open spec fn candidates_for(ctx: ContextView, pos: int, entries: Seq<EntryView>) -> Seq<
    SuggestionView,
> {
    if ctx.is_first_word {
        command_matches(entries, ctx.prefix, ctx.word_start, pos) + builtin_matches(
            builtin_commands(),
            ctx.prefix,
            ctx.word_start,
            pos,
        )
    } else {
        path_matches(entries, dir_part(ctx.prefix), file_part(ctx.prefix), ctx.word_start, pos)
    }
}

/// Whether `s` is the first of the candidates `c` with its value, and
/// stands at position `j`.
pub open spec fn occurs_first_at(c: Seq<SuggestionView>, j: int, s: SuggestionView) -> bool {
    &&& 0 <= j < c.len()
    &&& c[j] == s
    &&& forall|k: int| 0 <= k < j ==> (#[trigger] c[k]).value != s.value
}

/// Whether `s` is the first of the candidates `c` with its value.
pub open spec fn is_first_occurrence(c: Seq<SuggestionView>, s: SuggestionView) -> bool {
    exists|j: int| occurs_first_at(c, j, s)
}

/// Whether the value `v` stands at position `i` of `r`.
pub open spec fn has_value_at(r: Seq<SuggestionView>, i: int, v: Seq<char>) -> bool {
    0 <= i < r.len() && r[i].value == v
}

/// Whether some suggestion of `r` has the value `v`.
pub open spec fn has_value(r: Seq<SuggestionView>, v: Seq<char>) -> bool {
    exists|i: int| has_value_at(r, i, v)
}

/// Whether the values of `r` grow strictly, in the lexicographic order of
/// their bytes.
pub open spec fn strictly_sorted(r: Seq<SuggestionView>) -> bool {
    forall|i: int, j: int|
        0 <= i < j < r.len() ==> text_lt((#[trigger] r[i]).value, (#[trigger] r[j]).value)
}

/// Whether `r` is the candidates `c` sorted by value with duplicates
/// removed: the values of `r` grow strictly; each suggestion of `r` is the
/// first candidate with its value; and each candidate's value is in `r`.
pub open spec fn is_finalized(r: Seq<SuggestionView>, c: Seq<SuggestionView>) -> bool {
    &&& strictly_sorted(r)
    &&& forall|i: int| 0 <= i < r.len() ==> is_first_occurrence(c, #[trigger] r[i])
    &&& forall|j: int| 0 <= j < c.len() ==> has_value(r, (#[trigger] c[j]).value)
}

/// Whether `r` is what [`AeroCompleter::complete`] returns for the cursor
/// at `pos` in `line`, when the listing found `entries`: where `pos` is a
/// place for the cursor, the candidates for its context, sorted and without
/// duplicates; else nothing.
pub open spec fn is_completion(
    r: Seq<SuggestionView>,
    line: Seq<char>,
    pos: int,
    entries: Seq<EntryView>,
) -> bool {
    if is_cursor(line, pos) {
        is_finalized(r, candidates_for(context_of(line, pos), pos, entries))
    } else {
        r.len() == 0
    }
}

/// Sorts the candidates by value, in the lexicographic order of their
/// bytes, and keeps of those with the same value the one that came first.
pub fn finalize(candidates: Vec<Suggestion>) -> (r: Vec<Suggestion>)
    ensures
        is_finalized(suggestion_views(r@), suggestion_views(candidates@)),
{
    let mut out: Vec<Suggestion> = Vec::new();
    let ghost all = suggestion_views(candidates@);
    for s in it: candidates
        invariant
            it.seq() == candidates@,
            all == suggestion_views(candidates@),
            is_finalized(suggestion_views(out@), all.take(it.index() as int)),
    {
        let ghost n = it.index() as int;
        let ghost seen = all.take(n);
        let ghost now = all.take(n + 1);
        let ghost before = suggestion_views(out@);
        assert(s@ == all[n]);
        assert(now == seen.push(s@));
        let mut p: usize = 0;
        let mut found = false;
        let mut placed = false;
        while p < out.len() && !placed
            invariant
                p <= out.len(),
                before == suggestion_views(out@),
                forall|i: int| 0 <= i < p ==> text_lt((#[trigger] before[i]).value, s@.value),
                found ==> placed,
                placed ==> p < out.len(),
                placed && found ==> before[p as int].value == s@.value,
                placed && !found ==> text_lt(s@.value, before[p as int].value),
            decreases out.len() - p, (if placed { 0int } else { 1int }),
        {
            match order_of_text(out[p].value.as_str(), s.value.as_str()) {
                Order::Less => {
                    p += 1;
                },
                Order::Equal => {
                    found = true;
                    placed = true;
                },
                Order::Greater => {
                    placed = true;
                },
            }
        }
        if found {
            proof {
                assert(has_value_at(before, p as int, s@.value));
                lemma_finalized_keeps(before, seen, s@);
            }
        } else {
            proof {
                assert(p < before.len() ==> text_lt(s@.value, before[p as int].value));
                lemma_finalized_inserts(before, seen, s@, p as int);
            }
            out.insert(p, s);
            assert(suggestion_views(out@) == before.insert(p as int, s@));
        }
    }
    assert(all.take(candidates@.len() as int) == all);
    out
}

/// A candidate whose value the result already has leaves the result as
/// it is.
proof fn lemma_finalized_keeps(r: Seq<SuggestionView>, c: Seq<SuggestionView>, s: SuggestionView)
    requires
        is_finalized(r, c),
        has_value(r, s.value),
    ensures
        is_finalized(r, c.push(s)),
{
    let d = c.push(s);
    assert forall|i: int| 0 <= i < r.len() implies is_first_occurrence(d, #[trigger] r[i]) by {
        let j = choose|j: int| occurs_first_at(c, j, r[i]);
        assert(occurs_first_at(d, j, r[i]));
    }
    assert forall|j: int| 0 <= j < d.len() implies has_value(r, (#[trigger] d[j]).value) by {
        if j < c.len() {
            assert(d[j] == c[j]);
        }
    }
}

/// A candidate whose value the result lacks enters the result at the
/// position that keeps it sorted.
proof fn lemma_finalized_inserts(
    r: Seq<SuggestionView>,
    c: Seq<SuggestionView>,
    s: SuggestionView,
    p: int,
)
    requires
        is_finalized(r, c),
        0 <= p <= r.len(),
        forall|i: int| 0 <= i < p ==> text_lt((#[trigger] r[i]).value, s.value),
        p < r.len() ==> text_lt(s.value, r[p].value),
    ensures
        is_finalized(r.insert(p, s), c.push(s)),
{
    let d = c.push(s);
    let t = r.insert(p, s);
    assert forall|i: int| p <= i < r.len() implies text_lt(s.value, (#[trigger] r[i]).value) by {
        if i > p {
            assert(text_lt(r[p].value, r[i].value));
            lemma_text_lt_is_strict_total_order(s.value, r[p].value, r[i].value);
        }
    }
    assert forall|i: int, j: int| 0 <= i < j < t.len() implies text_lt(
        (#[trigger] t[i]).value,
        (#[trigger] t[j]).value,
    ) by {
        if i < p && j < p {
            assert(t[i] == r[i] && t[j] == r[j]);
        } else if i < p && j == p {
            assert(t[i] == r[i]);
        } else if i < p && j > p {
            assert(t[i] == r[i] && t[j] == r[j - 1]);
        } else if i == p {
            assert(t[j] == r[j - 1]);
        } else {
            assert(t[i] == r[i - 1] && t[j] == r[j - 1]);
        }
    }
    assert forall|k: int| 0 <= k < c.len() implies (#[trigger] c[k]).value != s.value by {
        if c[k].value == s.value {
            let i = choose|i: int| has_value_at(r, i, c[k].value);
            lemma_text_lt_is_strict_total_order(s.value, s.value, s.value);
            if i < p {
                assert(text_lt(r[i].value, s.value));
            } else {
                assert(text_lt(s.value, r[i].value));
            }
        }
    }
    assert forall|i: int| 0 <= i < t.len() implies is_first_occurrence(d, #[trigger] t[i]) by {
        if i == p {
            assert(occurs_first_at(d, c.len() as int, s));
        } else {
            let old_i = if i < p {
                i
            } else {
                i - 1
            };
            assert(t[i] == r[old_i]);
            let j = choose|j: int| occurs_first_at(c, j, r[old_i]);
            assert(occurs_first_at(d, j, t[i]));
        }
    }
    assert forall|j: int| 0 <= j < d.len() implies has_value(t, (#[trigger] d[j]).value) by {
        if j == c.len() {
            assert(has_value_at(t, p, d[j].value));
        } else {
            assert(d[j] == c[j]);
            let i = choose|i: int| has_value_at(r, i, c[j].value);
            if i < p {
                assert(has_value_at(t, i, d[j].value));
            } else {
                assert(t[i + 1] == r[i]);
                assert(has_value_at(t, i + 1, d[j].value));
            }
        }
    }
}

/// Decides [`is_command`].
pub fn entry_is_command(entry: &Entry) -> (r: bool)
    ensures
        r == is_command(entry@),
{
    match entry.mode {
        Some(mode) => !entry.is_dir && can_execute(mode),
        None => false,
    }
}

/// Appends to `out` the suggestions for the commands among `entries`: see
/// [`command_matches`].
fn push_command_matches(
    out: &mut Vec<Suggestion>,
    entries: &Vec<Entry>,
    prefix: &Vec<char>,
    span: Span,
)
    ensures
        suggestion_views(final(out)@) == suggestion_views(old(out)@) + command_matches(
            entry_views(entries@),
            prefix@,
            span.start as int,
            span.end as int,
        ),
{
    let ghost all = entry_views(entries@);
    let ghost base = suggestion_views(out@);
    let mut i: usize = 0;
    assert(all.take(0) == Seq::<EntryView>::empty());
    assert(base + Seq::<SuggestionView>::empty() == base);
    while i < entries.len()
        invariant
            i <= entries.len(),
            all == entry_views(entries@),
            suggestion_views(out@) == base + command_matches(
                all.take(i as int),
                prefix@,
                span.start as int,
                span.end as int,
            ),
        decreases entries.len() - i,
    {
        let ghost before = suggestion_views(out@);
        proof {
            assert(all.take(i + 1).drop_last() == all.take(i as int));
            assert(all.take(i + 1).last() == entries@[i as int]@);
        }
        let name = to_chars(entries[i].name.as_str());
        if entry_is_command(&entries[i]) && starts_with(&name, prefix) {
            let suggestion = Suggestion {
                value: entries[i].name.clone(),
                description: None,
                span,
                append_whitespace: true,
            };
            out.push(suggestion);
            assert(suggestion_views(out@) == before.push(suggestion@));
        }
        i += 1;
    }
    assert(all.take(entries.len() as int) == all);
}

/// Appends to `out` the suggestions for the built-in commands: see
/// [`builtin_matches`].
fn push_builtin_matches(out: &mut Vec<Suggestion>, prefix: &Vec<char>, span: Span)
    ensures
        suggestion_views(final(out)@) == suggestion_views(old(out)@) + builtin_matches(
            builtin_commands(),
            prefix@,
            span.start as int,
            span.end as int,
        ),
{
    let names: Vec<&str> = vec!["cd", "exit", "clear", "help", "config", "theme"];
    let ghost all = names@.map_values(|n: &str| n@);
    let ghost base = suggestion_views(out@);
    assert(all == builtin_commands());
    let mut i: usize = 0;
    assert(all.take(0) == Seq::<Seq<char>>::empty());
    assert(base + Seq::<SuggestionView>::empty() == base);
    while i < names.len()
        invariant
            i <= names.len(),
            all == names@.map_values(|n: &str| n@),
            suggestion_views(out@) == base + builtin_matches(
                all.take(i as int),
                prefix@,
                span.start as int,
                span.end as int,
            ),
        decreases names.len() - i,
    {
        let ghost before = suggestion_views(out@);
        proof {
            assert(all.take(i + 1).drop_last() == all.take(i as int));
            assert(all.take(i + 1).last() == names@[i as int]@);
        }
        let name = to_chars(names[i]);
        if starts_with(&name, prefix) {
            let suggestion = Suggestion {
                value: names[i].to_owned(),
                description: Some("Built-in".to_owned()),
                span,
                append_whitespace: true,
            };
            out.push(suggestion);
            assert(suggestion_views(out@) == before.push(suggestion@));
        }
        i += 1;
    }
    assert(all.take(names.len() as int) == all);
}

/// Appends to `out` the suggestions for the paths among `entries`: see
/// [`path_matches`].
fn push_path_matches(
    out: &mut Vec<Suggestion>,
    entries: &Vec<Entry>,
    dir: &Vec<char>,
    file: &Vec<char>,
    span: Span,
)
    ensures
        suggestion_views(final(out)@) == suggestion_views(old(out)@) + path_matches(
            entry_views(entries@),
            dir@,
            file@,
            span.start as int,
            span.end as int,
        ),
{
    let ghost all = entry_views(entries@);
    let ghost base = suggestion_views(out@);
    let mut i: usize = 0;
    assert(all.take(0) == Seq::<EntryView>::empty());
    assert(base + Seq::<SuggestionView>::empty() == base);
    while i < entries.len()
        invariant
            i <= entries.len(),
            all == entry_views(entries@),
            suggestion_views(out@) == base + path_matches(
                all.take(i as int),
                dir@,
                file@,
                span.start as int,
                span.end as int,
            ),
        decreases entries.len() - i,
    {
        let ghost before = suggestion_views(out@);
        proof {
            assert(all.take(i + 1).drop_last() == all.take(i as int));
            assert(all.take(i + 1).last() == entries@[i as int]@);
        }
        let name = to_chars(entries[i].name.as_str());
        if starts_with(&name, file) {
            let mut value: Vec<char> = Vec::new();
            push_all(&mut value, dir);
            push_all(&mut value, &name);
            if entries[i].is_dir {
                value.push('/');
            }
            let suggestion = Suggestion {
                value: from_chars(&value),
                description: None,
                span,
                append_whitespace: false,
            };
            proof {
                assert(suggestion@.value == path_suggestion(
                    dir@,
                    entries@[i as int]@,
                    span.start as int,
                    span.end as int,
                ).value);
            }
            out.push(suggestion);
            assert(suggestion_views(out@) == before.push(suggestion@));
        }
        i += 1;
    }
    assert(all.take(entries.len() as int) == all);
}

/// The candidates for the context `ctx` with the cursor at `pos`, in the
/// order in which they are found: see [`candidates_for`].
pub fn candidates(ctx: &CompletionContext, pos: usize, entries: &Vec<Entry>) -> (c: Vec<
    Suggestion,
>)
    ensures
        suggestion_views(c@) == candidates_for(ctx@, pos as int, entry_views(entries@)),
{
    let mut out: Vec<Suggestion> = Vec::new();
    let span = Span { start: ctx.word_start, end: pos };
    let prefix = to_chars(ctx.prefix.as_str());
    assert(suggestion_views(out@) == Seq::<SuggestionView>::empty());
    if ctx.is_first_word {
        push_command_matches(&mut out, entries, &prefix, span);
        push_builtin_matches(&mut out, &prefix, span);
    } else {
        let cut = after_last(&prefix, '/');
        let dir = slice_chars(&prefix, 0, cut);
        let file = slice_chars(&prefix, cut, prefix.len());
        push_path_matches(&mut out, entries, &dir, &file, span);
    }
    out
}

/// The completer of the shell's line editor.
#[derive(Clone, Copy, Debug, PartialEq, Eq, Structural)]
pub struct AeroCompleter;

impl AeroCompleter {
    /// The completions for the cursor at byte offset `pos` in `line`, when
    /// the listing that [`listing_for`] asks for found `entries`: the
    /// candidates of [`candidates_for`], sorted by value with duplicates
    /// removed. There are none where `pos` is no place for the cursor.
    pub fn complete(&mut self, line: &str, pos: usize, entries: &Vec<Entry>) -> (r: Vec<
        Suggestion,
    >)
        ensures
            is_completion(suggestion_views(r@), line@, pos as int, entry_views(entries@)),
            *final(self) == *old(self),
    {
        match completion_context(line, pos) {
            Some(ctx) => {
                let found = candidates(&ctx, pos, entries);
                finalize(found)
            },
            None => Vec::new(),
        }
    }
}

/// Two strictly sorted sequences that hold the same values hold them at
/// the same positions.
pub proof fn lemma_sorted_values_agree(a: Seq<SuggestionView>, b: Seq<SuggestionView>)
    requires
        strictly_sorted(a),
        strictly_sorted(b),
        forall|i: int| 0 <= i < a.len() ==> has_value(b, (#[trigger] a[i]).value),
        forall|j: int| 0 <= j < b.len() ==> has_value(a, (#[trigger] b[j]).value),
    ensures
        a.len() == b.len(),
        forall|i: int| 0 <= i < a.len() ==> (#[trigger] a[i]).value == b[i].value,
    decreases a.len(),
{
    if a.len() == 0 {
        if b.len() > 0 {
            let i = choose|i: int| has_value_at(a, i, b[0].value);
            assert(has_value_at(a, i, b[0].value));
        }
    } else {
        let i = choose|i: int| has_value_at(b, i, a[0].value);
        assert(has_value_at(b, i, a[0].value));
        let j = choose|j: int| has_value_at(a, j, b[0].value);
        assert(has_value_at(a, j, b[0].value));
        lemma_text_lt_is_strict_total_order(a[0].value, b[0].value, a[0].value);
        if i > 0 && j > 0 {
            assert(text_lt(b[0].value, b[i].value));
            assert(text_lt(a[0].value, a[j].value));
        }
        assert(a[0].value == b[0].value);
        let x = a.skip(1);
        let y = b.skip(1);
        assert forall|k: int| 0 <= k < x.len() implies has_value(y, (#[trigger] x[k]).value) by {
            let v = a[k + 1].value;
            let m = choose|m: int| has_value_at(b, m, v);
            assert(has_value_at(b, m, v));
            assert(text_lt(a[0].value, a[k + 1].value));
            assert(m != 0);
            assert(has_value_at(y, m - 1, x[k].value));
        }
        assert forall|k: int| 0 <= k < y.len() implies has_value(x, (#[trigger] y[k]).value) by {
            let v = b[k + 1].value;
            let m = choose|m: int| has_value_at(a, m, v);
            assert(has_value_at(a, m, v));
            assert(text_lt(b[0].value, b[k + 1].value));
            assert(m != 0);
            assert(has_value_at(x, m - 1, y[k].value));
        }
        assert forall|p: int, q: int| 0 <= p < q < x.len() implies text_lt(
            (#[trigger] x[p]).value,
            (#[trigger] x[q]).value,
        ) by {
            assert(text_lt(a[p + 1].value, a[q + 1].value));
        }
        assert forall|p: int, q: int| 0 <= p < q < y.len() implies text_lt(
            (#[trigger] y[p]).value,
            (#[trigger] y[q]).value,
        ) by {
            assert(text_lt(b[p + 1].value, b[q + 1].value));
        }
        lemma_sorted_values_agree(x, y);
        assert forall|k: int| 0 <= k < a.len() implies (#[trigger] a[k]).value == b[k].value by {
            if k > 0 {
                assert(x[k - 1].value == y[k - 1].value);
            }
        }
    }
}

/// The candidates determine their sorted and deduplicated form: two
/// results for the same candidates are equal, in content and in order.
pub proof fn lemma_finalized_is_determined(
    c: Seq<SuggestionView>,
    r1: Seq<SuggestionView>,
    r2: Seq<SuggestionView>,
)
    requires
        is_finalized(r1, c),
        is_finalized(r2, c),
    ensures
        r1 == r2,
{
    assert forall|i: int| 0 <= i < r1.len() implies has_value(r2, (#[trigger] r1[i]).value) by {
        let j = choose|j: int| occurs_first_at(c, j, r1[i]);
        assert(has_value(r2, c[j].value));
    }
    assert forall|i: int| 0 <= i < r2.len() implies has_value(r1, (#[trigger] r2[i]).value) by {
        let j = choose|j: int| occurs_first_at(c, j, r2[i]);
        assert(has_value(r1, c[j].value));
    }
    lemma_sorted_values_agree(r1, r2);
    assert forall|i: int| 0 <= i < r1.len() implies r1[i] == r2[i] by {
        let j1 = choose|j: int| occurs_first_at(c, j, r1[i]);
        let j2 = choose|j: int| occurs_first_at(c, j, r2[i]);
        assert(r1[i].value == r2[i].value);
        if j1 < j2 {
            assert(c[j1].value != r2[i].value);
        } else if j2 < j1 {
            assert(c[j2].value != r1[i].value);
        }
    }
    assert(r1 =~= r2);
}

/// Completion gives the same result whenever it is asked the same: for one
/// line, one cursor position and one listing, any two results are equal,
/// suggestion by suggestion and in the same order.
pub proof fn lemma_completion_is_determined(
    line: Seq<char>,
    pos: int,
    entries: Seq<EntryView>,
    r1: Seq<SuggestionView>,
    r2: Seq<SuggestionView>,
)
    requires
        is_completion(r1, line, pos, entries),
        is_completion(r2, line, pos, entries),
    ensures
        r1 == r2,
{
    if is_cursor(line, pos) {
        lemma_finalized_is_determined(candidates_for(context_of(line, pos), pos, entries), r1, r2);
    } else {
        assert(r1 =~= r2);
    }
}

/// However often a value occurs among the candidates, the result holds it
/// exactly once.
pub proof fn lemma_each_value_once(r: Seq<SuggestionView>, c: Seq<SuggestionView>, j: int)
    requires
        is_finalized(r, c),
        0 <= j < c.len(),
    ensures
        exists|i: int|
            has_value_at(r, i, c[j].value) && forall|k: int|
                has_value_at(r, k, c[j].value) ==> k == i,
{
    let i = choose|i: int| has_value_at(r, i, c[j].value);
    assert(has_value(r, c[j].value));
    assert forall|k: int| has_value_at(r, k, c[j].value) implies k == i by {
        lemma_text_lt_is_strict_total_order(c[j].value, c[j].value, c[j].value);
        if k < i {
            assert(text_lt(r[k].value, r[i].value));
        } else if i < k {
            assert(text_lt(r[i].value, r[k].value));
        }
    }
}

/// Whether `s` is the command candidate for the entry `e`, which the
/// prefix admits.
pub open spec fn is_command_for(
    s: SuggestionView,
    e: EntryView,
    prefix: Seq<char>,
    start: int,
    end: int,
) -> bool {
    is_command(e) && is_prefix(prefix, e.name) && s == command_suggestion(e.name, start, end)
}

/// Whether `s` is the built-in candidate for the name `name`, which the
/// prefix admits.
pub open spec fn is_builtin_for(
    s: SuggestionView,
    name: Seq<char>,
    prefix: Seq<char>,
    start: int,
    end: int,
) -> bool {
    is_prefix(prefix, name) && s == builtin_suggestion(name, start, end)
}

/// Whether `s` is the path candidate for the entry `e`, which the file-name
/// portion admits.
pub open spec fn is_path_for(
    s: SuggestionView,
    e: EntryView,
    dir: Seq<char>,
    file: Seq<char>,
    start: int,
    end: int,
) -> bool {
    is_prefix(file, e.name) && s == path_suggestion(dir, e, start, end)
}

/// Every command candidate is the candidate for one of the entries.
pub proof fn lemma_command_matches_member(
    entries: Seq<EntryView>,
    prefix: Seq<char>,
    start: int,
    end: int,
    j: int,
)
    requires
        0 <= j < command_matches(entries, prefix, start, end).len(),
    ensures
        exists|a: int|
            0 <= a < entries.len() && is_command_for(
                command_matches(entries, prefix, start, end)[j],
                #[trigger] entries[a],
                prefix,
                start,
                end,
            ),
    decreases entries.len(),
{
    let all = command_matches(entries, prefix, start, end);
    if entries.len() > 0 {
        let shorter = entries.drop_last();
        let before = command_matches(shorter, prefix, start, end);
        if j < before.len() {
            lemma_command_matches_member(shorter, prefix, start, end, j);
            let a = choose|a: int|
                0 <= a < shorter.len() && is_command_for(
                    before[j],
                    #[trigger] shorter[a],
                    prefix,
                    start,
                    end,
                );
            assert(is_command_for(all[j], entries[a], prefix, start, end));
        } else {
            assert(is_command_for(all[j], entries[entries.len() - 1], prefix, start, end));
        }
    }
}

/// Every executable entry that the prefix admits has its candidate among
/// the command candidates.
pub proof fn lemma_command_matches_has(
    entries: Seq<EntryView>,
    prefix: Seq<char>,
    start: int,
    end: int,
    a: int,
)
    requires
        0 <= a < entries.len(),
        is_command(entries[a]),
        is_prefix(prefix, entries[a].name),
    ensures
        exists|j: int|
            0 <= j < command_matches(entries, prefix, start, end).len() && #[trigger] command_matches(
                entries,
                prefix,
                start,
                end,
            )[j] == command_suggestion(entries[a].name, start, end),
    decreases entries.len(),
{
    let all = command_matches(entries, prefix, start, end);
    let before = command_matches(entries.drop_last(), prefix, start, end);
    if a == entries.len() - 1 {
        assert(all[before.len() as int] == command_suggestion(entries[a].name, start, end));
    } else {
        lemma_command_matches_has(entries.drop_last(), prefix, start, end, a);
        let j = choose|j: int|
            0 <= j < before.len() && #[trigger] before[j] == command_suggestion(
                entries[a].name,
                start,
                end,
            );
        assert(all[j] == command_suggestion(entries[a].name, start, end));
    }
}

/// Every built-in candidate is the candidate for one of the names.
pub proof fn lemma_builtin_matches_member(
    names: Seq<Seq<char>>,
    prefix: Seq<char>,
    start: int,
    end: int,
    j: int,
)
    requires
        0 <= j < builtin_matches(names, prefix, start, end).len(),
    ensures
        exists|a: int|
            0 <= a < names.len() && is_builtin_for(
                builtin_matches(names, prefix, start, end)[j],
                #[trigger] names[a],
                prefix,
                start,
                end,
            ),
    decreases names.len(),
{
    let all = builtin_matches(names, prefix, start, end);
    if names.len() > 0 {
        let shorter = names.drop_last();
        let before = builtin_matches(shorter, prefix, start, end);
        if j < before.len() {
            lemma_builtin_matches_member(shorter, prefix, start, end, j);
            let a = choose|a: int|
                0 <= a < shorter.len() && is_builtin_for(
                    before[j],
                    #[trigger] shorter[a],
                    prefix,
                    start,
                    end,
                );
            assert(is_builtin_for(all[j], names[a], prefix, start, end));
        } else {
            assert(is_builtin_for(all[j], names[names.len() - 1], prefix, start, end));
        }
    }
}

/// Every path candidate is the candidate for one of the entries.
pub proof fn lemma_path_matches_member(
    entries: Seq<EntryView>,
    dir: Seq<char>,
    file: Seq<char>,
    start: int,
    end: int,
    j: int,
)
    requires
        0 <= j < path_matches(entries, dir, file, start, end).len(),
    ensures
        exists|a: int|
            0 <= a < entries.len() && is_path_for(
                path_matches(entries, dir, file, start, end)[j],
                #[trigger] entries[a],
                dir,
                file,
                start,
                end,
            ),
    decreases entries.len(),
{
    let all = path_matches(entries, dir, file, start, end);
    if entries.len() > 0 {
        let shorter = entries.drop_last();
        let before = path_matches(shorter, dir, file, start, end);
        if j < before.len() {
            lemma_path_matches_member(shorter, dir, file, start, end, j);
            let a = choose|a: int|
                0 <= a < shorter.len() && is_path_for(
                    before[j],
                    #[trigger] shorter[a],
                    dir,
                    file,
                    start,
                    end,
                );
            assert(is_path_for(all[j], entries[a], dir, file, start, end));
        } else {
            assert(is_path_for(all[j], entries[entries.len() - 1], dir, file, start, end));
        }
    }
}

/// Every entry that the file-name portion admits has its candidate among
/// the path candidates.
pub proof fn lemma_path_matches_has(
    entries: Seq<EntryView>,
    dir: Seq<char>,
    file: Seq<char>,
    start: int,
    end: int,
    a: int,
)
    requires
        0 <= a < entries.len(),
        is_prefix(file, entries[a].name),
    ensures
        exists|j: int|
            0 <= j < path_matches(entries, dir, file, start, end).len() && #[trigger] path_matches(
                entries,
                dir,
                file,
                start,
                end,
            )[j] == path_suggestion(dir, entries[a], start, end),
    decreases entries.len(),
{
    let all = path_matches(entries, dir, file, start, end);
    let before = path_matches(entries.drop_last(), dir, file, start, end);
    if a == entries.len() - 1 {
        assert(all[before.len() as int] == path_suggestion(dir, entries[a], start, end));
    } else {
        lemma_path_matches_has(entries.drop_last(), dir, file, start, end, a);
        let j = choose|j: int|
            0 <= j < before.len() && #[trigger] before[j] == path_suggestion(
                dir,
                entries[a],
                start,
                end,
            );
        assert(all[j] == path_suggestion(dir, entries[a], start, end));
    }
}

/// An executable that the listing found is suggested once for a first word
/// that its name begins with, in however many directories of the search
/// path it was found.
pub proof fn lemma_command_suggested_once(
    line: Seq<char>,
    pos: int,
    entries: Seq<EntryView>,
    r: Seq<SuggestionView>,
    a: int,
)
    requires
        is_cursor(line, pos),
        is_completion(r, line, pos, entries),
        context_of(line, pos).is_first_word,
        0 <= a < entries.len(),
        is_command(entries[a]),
        is_prefix(context_of(line, pos).prefix, entries[a].name),
    ensures
        exists|i: int|
            has_value_at(r, i, entries[a].name) && forall|k: int|
                has_value_at(r, k, entries[a].name) ==> k == i,
{
    let ctx = context_of(line, pos);
    let commands = command_matches(entries, ctx.prefix, ctx.word_start, pos);
    let c = candidates_for(ctx, pos, entries);
    lemma_command_matches_has(entries, ctx.prefix, ctx.word_start, pos, a);
    let j = choose|j: int|
        0 <= j < commands.len() && #[trigger] commands[j] == command_suggestion(
            entries[a].name,
            ctx.word_start,
            pos,
        );
    assert(c[j] == commands[j]);
    lemma_each_value_once(r, c, j);
}

/// Whether the suggestion `s` replaces the word of the context `ctx` up to
/// the cursor at `pos`, by a value that begins with the word, with a space
/// after it exactly for a first word.
pub open spec fn extends_the_word(s: SuggestionView, ctx: ContextView, pos: int) -> bool {
    &&& s.start == ctx.word_start
    &&& s.end == pos
    &&& s.append_whitespace == ctx.is_first_word
    &&& is_prefix(ctx.prefix, s.value)
}

/// Every suggestion of a completion replaces the word under the cursor, by
/// a value that begins with the word as far as it is typed.
pub proof fn lemma_suggestions_extend_the_word(
    line: Seq<char>,
    pos: int,
    entries: Seq<EntryView>,
    r: Seq<SuggestionView>,
    i: int,
)
    requires
        is_completion(r, line, pos, entries),
        0 <= i < r.len(),
    ensures
        extends_the_word(r[i], context_of(line, pos), pos),
{
    let ctx = context_of(line, pos);
    let c = candidates_for(ctx, pos, entries);
    let j = choose|j: int| occurs_first_at(c, j, r[i]);
    assert(occurs_first_at(c, j, r[i]));
    if ctx.is_first_word {
        let commands = command_matches(entries, ctx.prefix, ctx.word_start, pos);
        if j < commands.len() {
            lemma_command_matches_member(entries, ctx.prefix, ctx.word_start, pos, j);
        } else {
            lemma_builtin_matches_member(
                builtin_commands(),
                ctx.prefix,
                ctx.word_start,
                pos,
                j - commands.len(),
            );
        }
    } else {
        let dir = dir_part(ctx.prefix);
        let file = file_part(ctx.prefix);
        lemma_last_index_of_bounds(ctx.prefix, '/');
        lemma_path_matches_member(entries, dir, file, ctx.word_start, pos, j);
        let a = choose|a: int|
            0 <= a < entries.len() && is_path_for(
                c[j],
                #[trigger] entries[a],
                dir,
                file,
                ctx.word_start,
                pos,
            );
        assert(entries[a].name.take(file.len() as int) == file);
        assert(c[j].value.take((dir + file).len() as int) == dir + file);
        assert(dir + file == ctx.prefix);
    }
}

/// Whether two listings hold the same entries, in whatever order and
/// however often.
pub open spec fn same_entries(a: Seq<EntryView>, b: Seq<EntryView>) -> bool {
    forall|e: EntryView| a.contains(e) <==> b.contains(e)
}

/// Whether the candidate at position `j` for a first word comes from the
/// listing, not from the built-in commands.
pub open spec fn is_listed_command(ctx: ContextView, pos: int, entries: Seq<EntryView>, j: int)
    -> bool {
    ctx.is_first_word && j < command_matches(entries, ctx.prefix, ctx.word_start, pos).len()
}

/// Each candidate for one listing is a candidate for any listing that holds
/// the same entries, and it comes from the listing in both or in neither.
proof fn lemma_candidates_carry_over(
    ctx: ContextView,
    pos: int,
    from: Seq<EntryView>,
    to: Seq<EntryView>,
    j: int,
) -> (k: int)
    requires
        same_entries(from, to),
        0 <= j < candidates_for(ctx, pos, from).len(),
    ensures
        0 <= k < candidates_for(ctx, pos, to).len(),
        candidates_for(ctx, pos, to)[k] == candidates_for(ctx, pos, from)[j],
        is_listed_command(ctx, pos, to, k) == is_listed_command(ctx, pos, from, j),
{
    let c = candidates_for(ctx, pos, from);
    let d = candidates_for(ctx, pos, to);
    if ctx.is_first_word {
        let commands = command_matches(from, ctx.prefix, ctx.word_start, pos);
        let others = command_matches(to, ctx.prefix, ctx.word_start, pos);
        if j < commands.len() {
            lemma_command_matches_member(from, ctx.prefix, ctx.word_start, pos, j);
            let a = choose|a: int|
                0 <= a < from.len() && is_command_for(
                    commands[j],
                    #[trigger] from[a],
                    ctx.prefix,
                    ctx.word_start,
                    pos,
                );
            assert(from.contains(from[a]));
            assert(to.contains(from[a]));
            let b = choose|b: int| 0 <= b < to.len() && to[b] == from[a];
            lemma_command_matches_has(to, ctx.prefix, ctx.word_start, pos, b);
            let k = choose|k: int|
                0 <= k < others.len() && #[trigger] others[k] == command_suggestion(
                    to[b].name,
                    ctx.word_start,
                    pos,
                );
            assert(d[k] == others[k]);
            k
        } else {
            let k = others.len() + (j - commands.len());
            assert(d[k] == c[j]);
            k
        }
    } else {
        let dir = dir_part(ctx.prefix);
        let file = file_part(ctx.prefix);
        lemma_path_matches_member(from, dir, file, ctx.word_start, pos, j);
        let a = choose|a: int|
            0 <= a < from.len() && is_path_for(
                c[j],
                #[trigger] from[a],
                dir,
                file,
                ctx.word_start,
                pos,
            );
        assert(from.contains(from[a]));
        assert(to.contains(from[a]));
        let b = choose|b: int| 0 <= b < to.len() && to[b] == from[a];
        lemma_path_matches_has(to, dir, file, ctx.word_start, pos, b);
        let k = choose|k: int|
            0 <= k < d.len() && #[trigger] d[k] == path_suggestion(
                dir,
                to[b],
                ctx.word_start,
                pos,
            );
        k
    }
}

/// Two candidates with the same value are equal, unless one comes from the
/// listing and the other from the built-in commands.
proof fn lemma_candidates_of_a_kind(
    ctx: ContextView,
    pos: int,
    first: Seq<EntryView>,
    j: int,
    second: Seq<EntryView>,
    k: int,
)
    requires
        0 <= j < candidates_for(ctx, pos, first).len(),
        0 <= k < candidates_for(ctx, pos, second).len(),
        candidates_for(ctx, pos, first)[j].value == candidates_for(ctx, pos, second)[k].value,
        is_listed_command(ctx, pos, first, j) == is_listed_command(ctx, pos, second, k),
    ensures
        candidates_for(ctx, pos, first)[j] == candidates_for(ctx, pos, second)[k],
{
    if ctx.is_first_word {
        let commands = command_matches(first, ctx.prefix, ctx.word_start, pos);
        let others = command_matches(second, ctx.prefix, ctx.word_start, pos);
        if j < commands.len() {
            lemma_command_matches_member(first, ctx.prefix, ctx.word_start, pos, j);
            lemma_command_matches_member(second, ctx.prefix, ctx.word_start, pos, k);
        } else {
            lemma_builtin_matches_member(
                builtin_commands(),
                ctx.prefix,
                ctx.word_start,
                pos,
                j - commands.len(),
            );
            lemma_builtin_matches_member(
                builtin_commands(),
                ctx.prefix,
                ctx.word_start,
                pos,
                k - others.len(),
            );
        }
    } else {
        let dir = dir_part(ctx.prefix);
        let file = file_part(ctx.prefix);
        lemma_path_matches_member(first, dir, file, ctx.word_start, pos, j);
        lemma_path_matches_member(second, dir, file, ctx.word_start, pos, k);
    }
}

/// The first candidates with one value under two listings that hold the
/// same entries are equal.
proof fn lemma_first_candidates_agree(
    ctx: ContextView,
    pos: int,
    first: Seq<EntryView>,
    s: SuggestionView,
    second: Seq<EntryView>,
    t: SuggestionView,
)
    requires
        same_entries(first, second),
        is_first_occurrence(candidates_for(ctx, pos, first), s),
        is_first_occurrence(candidates_for(ctx, pos, second), t),
        s.value == t.value,
    ensures
        s == t,
{
    let c = candidates_for(ctx, pos, first);
    let d = candidates_for(ctx, pos, second);
    let j = choose|j: int| occurs_first_at(c, j, s);
    let k = choose|k: int| occurs_first_at(d, k, t);
    assert(occurs_first_at(c, j, s) && occurs_first_at(d, k, t));
    if is_listed_command(ctx, pos, first, j) != is_listed_command(ctx, pos, second, k) {
        if is_listed_command(ctx, pos, first, j) {
            let m = lemma_candidates_carry_over(ctx, pos, first, second, j);
            assert(d[m].value == t.value);
            assert(m < k);
        } else {
            assert(same_entries(second, first));
            let m = lemma_candidates_carry_over(ctx, pos, second, first, k);
            assert(c[m].value == s.value);
            assert(m < j);
        }
    } else {
        lemma_candidates_of_a_kind(ctx, pos, first, j, second, k);
    }
}

/// Completion does not depend on the order in which a listing reports the
/// entries, nor on how often it reports one: for one line and one cursor
/// position, the results for two listings that hold the same entries are
/// equal, suggestion by suggestion and in the same order.
pub proof fn lemma_completion_ignores_listing_order(
    line: Seq<char>,
    pos: int,
    first: Seq<EntryView>,
    second: Seq<EntryView>,
    r1: Seq<SuggestionView>,
    r2: Seq<SuggestionView>,
)
    requires
        same_entries(first, second),
        is_completion(r1, line, pos, first),
        is_completion(r2, line, pos, second),
    ensures
        r1 == r2,
{
    if is_cursor(line, pos) {
        lemma_finalized_ignores_listing_order(context_of(line, pos), pos, first, second, r1, r2);
    } else {
        assert(r1 =~= r2);
    }
}

/// For one context, the sorted candidates for two listings that hold the
/// same entries are equal.
proof fn lemma_finalized_ignores_listing_order(
    ctx: ContextView,
    pos: int,
    first: Seq<EntryView>,
    second: Seq<EntryView>,
    r1: Seq<SuggestionView>,
    r2: Seq<SuggestionView>,
)
    requires
        same_entries(first, second),
        is_finalized(r1, candidates_for(ctx, pos, first)),
        is_finalized(r2, candidates_for(ctx, pos, second)),
    ensures
        r1 == r2,
{
    let c = candidates_for(ctx, pos, first);
    let d = candidates_for(ctx, pos, second);
    assert(same_entries(second, first));
    assert forall|i: int| 0 <= i < r1.len() implies has_value(r2, (#[trigger] r1[i]).value) by {
        let j = choose|j: int| occurs_first_at(c, j, r1[i]);
        assert(occurs_first_at(c, j, r1[i]));
        let k = lemma_candidates_carry_over(ctx, pos, first, second, j);
        assert(has_value(r2, d[k].value));
    }
    assert forall|i: int| 0 <= i < r2.len() implies has_value(r1, (#[trigger] r2[i]).value) by {
        let k = choose|k: int| occurs_first_at(d, k, r2[i]);
        assert(occurs_first_at(d, k, r2[i]));
        let j = lemma_candidates_carry_over(ctx, pos, second, first, k);
        assert(has_value(r1, c[j].value));
    }
    lemma_sorted_values_agree(r1, r2);
    assert forall|i: int| 0 <= i < r1.len() implies r1[i] == r2[i] by {
        assert(r1[i].value == r2[i].value);
        lemma_first_candidates_agree(ctx, pos, first, r1[i], second, r2[i]);
    }
    assert(r1 =~= r2);
}

/// Whether no two of the candidates `c` have the same value.
pub open spec fn distinct_values(c: Seq<SuggestionView>) -> bool {
    forall|i: int, j: int|
        0 <= i < j < c.len() ==> (#[trigger] c[i]).value != (#[trigger] c[j]).value
}

/// The values of the suggestions of `r`.
pub open spec fn values_of(r: Seq<SuggestionView>) -> Seq<Seq<char>> {
    r.map_values(|s: SuggestionView| s.value)
}

/// Where no two candidates have the same value, sorting them drops none:
/// the result has as many suggestions as there are candidates.
pub proof fn lemma_distinct_candidates_all_stay(r: Seq<SuggestionView>, c: Seq<SuggestionView>)
    requires
        is_finalized(r, c),
        distinct_values(c),
    ensures
        r.len() == c.len(),
{
    let vr = values_of(r);
    let vc = values_of(c);
    assert forall|i: int, j: int| 0 <= i < vr.len() && 0 <= j < vr.len() && i != j implies vr[i]
        != vr[j] by {
        lemma_text_lt_is_strict_total_order(r[i].value, r[i].value, r[i].value);
        if i < j {
            assert(text_lt(r[i].value, r[j].value));
        } else {
            assert(text_lt(r[j].value, r[i].value));
        }
    }
    assert forall|i: int, j: int| 0 <= i < vc.len() && 0 <= j < vc.len() && i != j implies vc[i]
        != vc[j] by {
        if i < j {
            assert(c[i].value != c[j].value);
        } else {
            assert(c[j].value != c[i].value);
        }
    }
    assert forall|v: Seq<char>| vr.to_set().contains(v) <==> vc.to_set().contains(v) by {
        if vr.contains(v) {
            let i = choose|i: int| 0 <= i < vr.len() && vr[i] == v;
            let j = choose|j: int| occurs_first_at(c, j, r[i]);
            assert(occurs_first_at(c, j, r[i]));
            assert(vc[j] == v);
        }
        if vc.contains(v) {
            let j = choose|j: int| 0 <= j < vc.len() && vc[j] == v;
            assert(has_value(r, c[j].value));
            let i = choose|i: int| has_value_at(r, i, c[j].value);
            assert(vr[i] == v);
        }
    }
    assert(vr.to_set() =~= vc.to_set());
    vr.unique_seq_to_set();
    vc.unique_seq_to_set();
}

/// With an empty file-name portion every entry is a path candidate, in the
/// order of the entries.
pub proof fn lemma_path_matches_all(
    entries: Seq<EntryView>,
    dir: Seq<char>,
    start: int,
    end: int,
)
    ensures
        path_matches(entries, dir, Seq::empty(), start, end).len() == entries.len(),
        forall|j: int|
            0 <= j < entries.len() ==> #[trigger] path_matches(
                entries,
                dir,
                Seq::empty(),
                start,
                end,
            )[j] == path_suggestion(dir, entries[j], start, end),
    decreases entries.len(),
{
    if entries.len() > 0 {
        lemma_path_matches_all(entries.drop_last(), dir, start, end);
        assert(entries.last().name.take(0) == Seq::<char>::empty());
    }
}

/// Whether the names of the entries are those of one directory: no two are
/// equal, and none ends in `/`.
pub open spec fn names_of_one_directory(entries: Seq<EntryView>) -> bool {
    &&& forall|i: int, j: int|
        0 <= i < j < entries.len() ==> (#[trigger] entries[i]).name != (#[trigger] entries[j]).name
    &&& forall|i: int|
        0 <= i < entries.len() ==> (#[trigger] entries[i]).name.len() == 0 || entries[i].name.last()
            != '/'
}

/// Entries of one directory with different names have different path
/// values.
proof fn lemma_path_values_differ(dir: Seq<char>, a: EntryView, b: EntryView, start: int, end: int)
    requires
        a.name != b.name,
        a.name.len() == 0 || a.name.last() != '/',
        b.name.len() == 0 || b.name.last() != '/',
    ensures
        path_suggestion(dir, a, start, end).value != path_suggestion(dir, b, start, end).value,
{
    let x = path_suggestion(dir, a, start, end).value;
    let y = path_suggestion(dir, b, start, end).value;
    let slash = seq!['/'];
    let none = Seq::<char>::empty();
    let p = a.name + if a.is_dir {
        slash
    } else {
        none
    };
    let q = b.name + if b.is_dir {
        slash
    } else {
        none
    };
    if x == y {
        assert(x.skip(dir.len() as int) == p);
        assert(y.skip(dir.len() as int) == q);
        assert(p == q);
        if a.is_dir == b.is_dir {
            if a.is_dir {
                assert(p.drop_last() == a.name);
                assert(q.drop_last() == b.name);
            } else {
                assert(p == a.name);
                assert(q == b.name);
            }
        } else if a.is_dir {
            assert(q == b.name);
            assert(p.last() == '/');
        } else {
            assert(p == a.name);
            assert(q.last() == '/');
        }
    }
}

/// A path prefix that ends in `/`, or an empty one, lists the directory
/// whole. The directory searched is the prefix itself, or `.` for the empty
/// prefix. Where the entries are those of one directory, the completion has
/// as many suggestions as there are entries, and each entry has its
/// suggestion at exactly one position.
pub proof fn lemma_directory_is_listed_whole(
    line: Seq<char>,
    pos: int,
    entries: Seq<EntryView>,
    r: Seq<SuggestionView>,
)
    requires
        is_cursor(line, pos),
        is_completion(r, line, pos, entries),
        !context_of(line, pos).is_first_word,
        file_part(context_of(line, pos).prefix).len() == 0,
        names_of_one_directory(entries),
    ensures
        dir_part(context_of(line, pos).prefix) == context_of(line, pos).prefix,
        search_dir(context_of(line, pos).prefix) == if context_of(line, pos).prefix.len() == 0 {
            "."@
        } else {
            context_of(line, pos).prefix
        },
        r.len() == entries.len(),
        forall|a: int|
            0 <= a < entries.len() ==> exists|i: int|
                0 <= i < r.len() && r[i] == path_suggestion(
                    dir_part(context_of(line, pos).prefix),
                    #[trigger] entries[a],
                    context_of(line, pos).word_start,
                    pos,
                ) && forall|k: int| has_value_at(r, k, r[i].value) ==> k == i,
{
    let ctx = context_of(line, pos);
    let dir = dir_part(ctx.prefix);
    let c = candidates_for(ctx, pos, entries);
    assert(file_part(ctx.prefix) == Seq::<char>::empty());
    lemma_last_index_of_bounds(ctx.prefix, '/');
    assert(dir == ctx.prefix);
    lemma_path_matches_all(entries, dir, ctx.word_start, pos);
    assert forall|i: int, j: int| 0 <= i < j < c.len() implies (#[trigger] c[i]).value != (
    #[trigger] c[j]).value by {
        lemma_path_values_differ(dir, entries[i], entries[j], ctx.word_start, pos);
    }
    lemma_distinct_candidates_all_stay(r, c);
    assert forall|a: int| 0 <= a < entries.len() implies exists|i: int|
        0 <= i < r.len() && r[i] == path_suggestion(
            dir,
            #[trigger] entries[a],
            ctx.word_start,
            pos,
        ) && forall|k: int| has_value_at(r, k, r[i].value) ==> k == i by {
        lemma_each_value_once(r, c, a);
        let i = choose|i: int|
            has_value_at(r, i, c[a].value) && forall|k: int|
                has_value_at(r, k, c[a].value) ==> k == i;
        let j = choose|j: int| occurs_first_at(c, j, r[i]);
        assert(occurs_first_at(c, j, r[i]));
        if j < a {
            assert(c[j].value != c[a].value);
        } else if a < j {
            assert(c[a].value != c[j].value);
        }
        assert(r[i] == c[a]);
    }
}

} // verus!
