//! What `proc`, the process monitor, shows.
//!
//! The caller reads the process table and prints; this module decides what
//! was asked for and which processes are shown, in which order.

use crate::order::{
    is_asymmetric, is_ordering, lemma_ordering_inserts, lemma_ordering_is_determined,
};
use crate::text::{
    from_chars, has_match_at, is_text, lowercase, matches_at, occurs_in, push_str, split, split_on,
    texts, to_chars, to_lowercase, trim, trimmed, views,
};
use vstd::prelude::*;

verus! {

/// What `proc` is asked to show.
#[derive(Clone, Debug, PartialEq, Eq)]
pub enum ProcessQuery {
    /// How `proc` is used.
    Usage,
    /// The processes that hold the most memory.
    Memory,
    /// The processes that use the most processor time.
    Cpu,
    /// The memory that the processor and the graphics unit share.
    Gpu,
    /// The processes whose names hold one of the targets.
    Search(Vec<String>),
}

/// A [`ProcessQuery`] as plain values.
pub ghost enum ProcessQueryView {
    Usage,
    Memory,
    Cpu,
    Gpu,
    Search(Seq<Seq<char>>),
}

impl View for ProcessQuery {
    type V = ProcessQueryView;

    open spec fn view(&self) -> ProcessQueryView {
        match self {
            ProcessQuery::Usage => ProcessQueryView::Usage,
            ProcessQuery::Memory => ProcessQueryView::Memory,
            ProcessQuery::Cpu => ProcessQueryView::Cpu,
            ProcessQuery::Gpu => ProcessQueryView::Gpu,
            ProcessQuery::Search(targets) => ProcessQueryView::Search(texts(targets@)),
        }
    }
}

/// The words of `args` with one space between each two.
pub open spec fn join_with_spaces(args: Seq<Seq<char>>) -> Seq<char>
    decreases args.len(),
{
    if args.len() == 0 {
        Seq::empty()
    } else if args.len() == 1 {
        args[0]
    } else {
        join_with_spaces(args.drop_last()) + seq![' '] + args.last()
    }
}

/// Each piece of `parts`, trimmed.
pub open spec fn trim_each(parts: Seq<Seq<char>>) -> Seq<Seq<char>> {
    parts.map_values(|p: Seq<char>| trim(p))
}

/// The names that a search looks for: the arguments are joined with
/// spaces, the result is split at its commas, and each piece is trimmed.
pub open spec fn search_targets(args: Seq<Seq<char>>) -> Seq<Seq<char>> {
    trim_each(split(join_with_spaces(args), ','))
}

/// What `proc` shows for its arguments: its usage without any; for a first
/// argument `mem`, `cpu` or `gpu` the view of that name; else the search
/// for the targets that all the arguments name.
pub open spec fn query_for(args: Seq<Seq<char>>) -> ProcessQueryView {
    if args.len() == 0 {
        ProcessQueryView::Usage
    } else if args[0] == "mem"@ {
        ProcessQueryView::Memory
    } else if args[0] == "cpu"@ {
        ProcessQueryView::Cpu
    } else if args[0] == "gpu"@ {
        ProcessQueryView::Gpu
    } else {
        ProcessQueryView::Search(search_targets(args))
    }
}

/// Computes [`join_with_spaces`].
fn joined(args: &Vec<String>) -> (r: Vec<char>)
    ensures
        r@ == join_with_spaces(texts(args@)),
{
    let ghost all = texts(args@);
    let mut out: Vec<char> = Vec::new();
    let mut i: usize = 0;
    assert(all.take(0).len() == 0);
    while i < args.len()
        invariant
            i <= args.len(),
            all == texts(args@),
            out@ == join_with_spaces(all.take(i as int)),
        decreases args.len() - i,
    {
        proof {
            assert(all.take(i + 1).drop_last() == all.take(i as int));
            assert(all.take(i + 1).last() == args@[i as int]@);
            if i == 0 {
                assert(all.take(1)[0] == args@[0]@);
                assert(out@ + args@[0]@ == args@[0]@);
            }
        }
        if i > 0 {
            out.push(' ');
        }
        push_str(&mut out, args[i].as_str());
        i += 1;
    }
    assert(all.take(args.len() as int) == all);
    out
}

/// The names that a search looks for: see [`search_targets`].
pub fn targets_of(args: &Vec<String>) -> (targets: Vec<String>)
    ensures
        texts(targets@) == search_targets(texts(args@)),
{
    let query = joined(args);
    let parts = split_on(&query, ',');
    let ghost pieces = views(parts@);
    let mut targets: Vec<String> = Vec::new();
    let mut i: usize = 0;
    while i < parts.len()
        invariant
            i <= parts.len(),
            pieces == views(parts@),
            texts(targets@) == trim_each(pieces.take(i as int)),
        decreases parts.len() - i,
    {
        let ghost before = texts(targets@);
        let target = from_chars(&trimmed(&parts[i]));
        targets.push(target);
        assert(texts(targets@) == before.push(trim(pieces[i as int])));
        assert(trim_each(pieces.take(i + 1)) == trim_each(pieces.take(i as int)).push(
            trim(pieces[i as int]),
        ));
        i += 1;
    }
    assert(pieces.take(parts.len() as int) == pieces);
    targets
}

/// What `proc` shows for its arguments: see [`query_for`].
pub fn process_query(args: &Vec<String>) -> (q: ProcessQuery)
    ensures
        q@ == query_for(texts(args@)),
{
    if args.len() == 0 {
        return ProcessQuery::Usage;
    }
    assert(texts(args@)[0] == args@[0]@);
    let first = to_chars(args[0].as_str());
    if is_text(&first, "mem") {
        ProcessQuery::Memory
    } else if is_text(&first, "cpu") {
        ProcessQuery::Cpu
    } else if is_text(&first, "gpu") {
        ProcessQuery::Gpu
    } else {
        ProcessQuery::Search(targets_of(args))
    }
}

/// Whether the process name `name` holds the target `target`, both taken
/// in lower case.
pub open spec fn holds_target(name: Seq<char>, target: Seq<char>) -> bool {
    occurs_in(lowercase(target), lowercase(name))
}

/// Whether the process name `name` holds one of `targets`.
pub open spec fn holds_any(name: Seq<char>, targets: Seq<Seq<char>>) -> bool {
    exists|k: int| 0 <= k < targets.len() && holds_target(name, #[trigger] targets[k])
}

/// Decides [`occurs_in`].
pub fn contains(s: &Vec<char>, pat: &Vec<char>) -> (r: bool)
    ensures
        r == occurs_in(pat@, s@),
{
    let mut i: usize = 0;
    while i <= s.len()
        invariant
            i <= s.len() + 1,
            forall|j: int| 0 <= j < i ==> !matches_at(s@, j, pat@),
        decreases s.len() + 1 - i,
    {
        if has_match_at(s, i, pat) {
            return true;
        }
        if i == s.len() {
            assert forall|j: int| !matches_at(s@, j, pat@) by {}
            return false;
        }
        i += 1;
    }
    assert forall|j: int| !matches_at(s@, j, pat@) by {}
    false
}

/// Whether the process name `name` holds one of `targets`, in whatever
/// case: see [`holds_any`].
pub fn name_matches(name: &str, targets: &Vec<String>) -> (r: bool)
    ensures
        r == holds_any(name@, texts(targets@)),
{
    let lowered = to_chars(to_lowercase(name).as_str());
    let mut k: usize = 0;
    while k < targets.len()
        invariant
            k <= targets.len(),
            lowered@ == lowercase(name@),
            forall|j: int| 0 <= j < k ==> !holds_target(name@, #[trigger] texts(targets@)[j]),
        decreases targets.len() - k,
    {
        assert(texts(targets@)[k as int] == targets@[k as int]@);
        let target = to_chars(to_lowercase(targets[k].as_str()).as_str());
        if contains(&lowered, &target) {
            return true;
        }
        k += 1;
    }
    false
}

/// Whether `found` lists, in growing order, exactly the positions of the
/// names that hold one of `targets`.
pub open spec fn is_search_result(found: Seq<usize>, names: Seq<Seq<char>>, targets: Seq<Seq<char>>)
    -> bool {
    &&& forall|i: int, j: int| 0 <= i < j < found.len() ==> found[i] < found[j]
    &&& forall|i: int|
        0 <= i < found.len() ==> (#[trigger] found[i]) < names.len() && holds_any(
            names[found[i] as int],
            targets,
        )
    &&& forall|x: usize|
        x < names.len() && holds_any(names[x as int], targets) ==> #[trigger] found.contains(x)
}

/// The positions of the processes that a search shows: those whose names
/// hold one of `targets`, in the order of the process table.
pub fn matching_processes(names: &Vec<String>, targets: &Vec<String>) -> (found: Vec<usize>)
    ensures
        is_search_result(found@, texts(names@), texts(targets@)),
{
    let mut found: Vec<usize> = Vec::new();
    let mut n: usize = 0;
    while n < names.len()
        invariant
            n <= names.len(),
            forall|i: int| 0 <= i < found.len() ==> (#[trigger] found@[i]) < n,
            is_search_result(found@, texts(names@).take(n as int), texts(targets@)),
        decreases names.len() - n,
    {
        let ghost before = found@;
        let ghost seen = texts(names@).take(n as int);
        let ghost now = texts(names@).take(n + 1);
        assert(now[n as int] == names@[n as int]@);
        let hit = name_matches(names[n].as_str(), targets);
        if hit {
            found.push(n);
        }
        proof {
            assert forall|i: int| 0 <= i < found.len() implies (#[trigger] found@[i]) < now.len()
                && holds_any(now[found@[i] as int], texts(targets@)) by {
                if i < before.len() {
                    assert(now[before[i] as int] == seen[before[i] as int]);
                }
            }
            assert forall|x: usize|
                x < now.len() && holds_any(now[x as int], texts(targets@)) implies #[trigger] found@.contains(
                x,
            ) by {
                if x < n {
                    assert(now[x as int] == seen[x as int]);
                    assert(before.contains(x));
                    let i = choose|i: int| 0 <= i < before.len() && before[i] == x;
                    assert(found@[i] == x);
                } else {
                    assert(found@[found@.len() - 1] == x);
                }
            }
        }
        n += 1;
    }
    assert(texts(names@).take(names.len() as int) == texts(names@));
    found
}

/// Whether the process at position `a` is shown before the one at position
/// `b`: it holds more memory, or as much and `a` is the earlier position.
pub open spec fn outranks(memory: Seq<u64>, a: usize, b: usize) -> bool {
    memory[a as int] > memory[b as int] || (memory[a as int] == memory[b as int] && a < b)
}

/// [`outranks`] as a relation between positions.
pub open spec fn by_memory(memory: Seq<u64>) -> spec_fn(usize, usize) -> bool {
    |a: usize, b: usize| outranks(memory, a, b)
}

/// Whether `order` lists every position of `memory` once, the process that
/// holds more memory first, processes that hold as much in their own
/// order.
pub open spec fn is_memory_order(order: Seq<usize>, memory: Seq<u64>) -> bool {
    is_ordering(order, memory.len(), by_memory(memory))
}

/// Of two processes at most one is shown before the other.
pub proof fn lemma_by_memory_is_asymmetric(memory: Seq<u64>)
    ensures
        is_asymmetric(by_memory(memory)),
{
    assert forall|x: usize, y: usize| !(#[trigger] by_memory(memory)(x, y) && by_memory(memory)(
        y,
        x,
    )) by {}
}

/// The positions of all processes, the one that holds the most memory
/// first: see [`is_memory_order`]. `memory` holds the memory of each
/// process, in the order of the process table.
pub fn memory_order(memory: &Vec<u64>) -> (order: Vec<usize>)
    ensures
        is_memory_order(order@, memory@),
{
    let mut order: Vec<usize> = Vec::new();
    let mut n: usize = 0;
    while n < memory.len()
        invariant
            n <= memory.len(),
            is_ordering(order@, n as nat, by_memory(memory@)),
        decreases memory.len() - n,
    {
        let mut p: usize = 0;
        while p < order.len() && memory[order[p]] >= memory[n]
            invariant
                p <= order.len(),
                n < memory.len(),
                is_ordering(order@, n as nat, by_memory(memory@)),
                forall|i: int| 0 <= i < p ==> outranks(memory@, #[trigger] order@[i], n),
            decreases order.len() - p,
        {
            p += 1;
        }
        proof {
            assert forall|i: int| p <= i < order@.len() implies outranks(
                memory@,
                n,
                #[trigger] order@[i],
            ) by {
                if i > p {
                    assert(by_memory(memory@)(order@[p as int], order@[i]));
                }
            }
            assert forall|i: int| 0 <= i < p implies by_memory(memory@)(#[trigger] order@[i], n) by {}
            assert forall|i: int| p <= i < order@.len() implies by_memory(memory@)(
                n,
                #[trigger] order@[i],
            ) by {}
            lemma_ordering_inserts(order@, n, by_memory(memory@), p as int);
        }
        order.insert(p, n);
        n += 1;
    }
    order
}

/// Whether `top` is the start of the memory order of `memory`, as long as
/// `limit` allows.
pub open spec fn is_top_by_memory(top: Seq<usize>, memory: Seq<u64>, limit: int) -> bool {
    exists|order: Seq<usize>|
        is_memory_order(order, memory) && top == order.take(
            if limit < order.len() {
                limit
            } else {
                order.len() as int
            },
        )
}

/// The positions of the `limit` processes that hold the most memory, the
/// one that holds the most first; all of them where there are fewer.
pub fn top_by_memory(memory: &Vec<u64>, limit: usize) -> (top: Vec<usize>)
    ensures
        is_top_by_memory(top@, memory@, limit as int),
{
    let mut order = memory_order(memory);
    let ghost full = order@;
    order.truncate(limit);
    proof {
        if limit >= full.len() {
            assert(full.take(full.len() as int) == full);
        }
    }
    order
}

/// The memory that the processes hold determines their order.
pub proof fn lemma_memory_order_is_determined(
    memory: Seq<u64>,
    first: Seq<usize>,
    second: Seq<usize>,
)
    requires
        is_memory_order(first, memory),
        is_memory_order(second, memory),
    ensures
        first == second,
{
    lemma_by_memory_is_asymmetric(memory);
    lemma_ordering_is_determined(memory.len(), by_memory(memory), first, second);
}

/// The memory that the processes hold and the limit determine which
/// processes are shown, and in which order.
pub proof fn lemma_top_by_memory_is_determined(
    memory: Seq<u64>,
    limit: int,
    first: Seq<usize>,
    second: Seq<usize>,
)
    requires
        is_top_by_memory(first, memory, limit),
        is_top_by_memory(second, memory, limit),
    ensures
        first == second,
{
    let a = choose|order: Seq<usize>|
        is_memory_order(order, memory) && first == order.take(
            if limit < order.len() {
                limit
            } else {
                order.len() as int
            },
        );
    let b = choose|order: Seq<usize>|
        is_memory_order(order, memory) && second == order.take(
            if limit < order.len() {
                limit
            } else {
                order.len() as int
            },
        );
    lemma_memory_order_is_determined(memory, a, b);
}

} // verus!
