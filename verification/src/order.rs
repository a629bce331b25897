//! Orders of positions: the arrangement of the positions `0..n` of a list
//! by a relation that says which of two positions comes first.

use vstd::prelude::*;

verus! {

/// Whether each position of `order` comes, by `before`, before all that
/// follow it.
pub open spec fn sorted_by(order: Seq<usize>, before: spec_fn(usize, usize) -> bool) -> bool {
    forall|i: int, j: int|
        0 <= i < j < order.len() ==> before(#[trigger] order[i], #[trigger] order[j])
}

/// Whether `order` lists every position below `n` once, each before all
/// that follow it by `before`.
pub open spec fn is_ordering(order: Seq<usize>, n: nat, before: spec_fn(usize, usize) -> bool)
    -> bool {
    &&& order.len() == n
    &&& forall|i: int| 0 <= i < order.len() ==> (#[trigger] order[i]) < n
    &&& sorted_by(order, before)
    &&& forall|x: usize| x < n ==> #[trigger] order.contains(x)
}

/// Whether `before` never puts each of two positions before the other.
pub open spec fn is_asymmetric(before: spec_fn(usize, usize) -> bool) -> bool {
    forall|x: usize, y: usize| !(#[trigger] before(x, y) && before(y, x))
}

/// The position `n` enters an ordering of the positions below it at a place
/// where all before it come before it, and it comes before all after it.
pub proof fn lemma_ordering_inserts(
    order: Seq<usize>,
    n: usize,
    before: spec_fn(usize, usize) -> bool,
    p: int,
)
    requires
        is_ordering(order, n as nat, before),
        0 <= p <= order.len(),
        forall|i: int| 0 <= i < p ==> before(#[trigger] order[i], n),
        forall|i: int| p <= i < order.len() ==> before(n, #[trigger] order[i]),
    ensures
        is_ordering(order.insert(p, n), (n + 1) as nat, before),
{
    let t = order.insert(p, n);
    assert forall|i: int, j: int| 0 <= i < j < t.len() implies before(
        #[trigger] t[i],
        #[trigger] t[j],
    ) by {
        if j == p {
            assert(t[i] == order[i]);
        } else if i == p {
            assert(t[j] == order[j - 1]);
        } else {
            let a = if i < p {
                i
            } else {
                i - 1
            };
            let b = if j < p {
                j
            } else {
                j - 1
            };
            assert(t[i] == order[a] && t[j] == order[b]);
        }
    }
    assert forall|i: int| 0 <= i < t.len() implies (#[trigger] t[i]) < n + 1 by {
        if i < p {
            assert(t[i] == order[i]);
        } else if i > p {
            assert(t[i] == order[i - 1]);
        }
    }
    assert forall|x: usize| x < n + 1 implies #[trigger] t.contains(x) by {
        if x == n {
            assert(t[p] == n);
        } else {
            assert(order.contains(x));
            let i = choose|i: int| 0 <= i < order.len() && order[i] == x;
            if i < p {
                assert(t[i] == x);
            } else {
                assert(t[i + 1] == x);
            }
        }
    }
}

/// Two sequences that are sorted by an asymmetric relation and hold the
/// same positions are equal.
pub proof fn lemma_sorted_sequences_agree(
    a: Seq<usize>,
    b: Seq<usize>,
    before: spec_fn(usize, usize) -> bool,
)
    requires
        sorted_by(a, before),
        sorted_by(b, before),
        is_asymmetric(before),
        forall|x: usize| a.contains(x) <==> b.contains(x),
    ensures
        a == b,
    decreases a.len(),
{
    if a.len() == 0 {
        if b.len() > 0 {
            assert(b.contains(b[0]));
            assert(a.contains(b[0]));
        }
        assert(a =~= b);
    } else {
        assert(a.contains(a[0]));
        assert(b.contains(a[0]));
        let i = choose|i: int| 0 <= i < b.len() && b[i] == a[0];
        assert(b.contains(b[0]));
        assert(a.contains(b[0]));
        let j = choose|j: int| 0 <= j < a.len() && a[j] == b[0];
        if i > 0 && j > 0 {
            assert(before(b[0], b[i]));
            assert(before(a[0], a[j]));
        }
        assert(a[0] == b[0]);
        let x = a.skip(1);
        let y = b.skip(1);
        assert forall|v: usize| x.contains(v) <==> y.contains(v) by {
            assert(!(before(v, v) && before(v, v)));
            if x.contains(v) {
                let k = choose|k: int| 0 <= k < x.len() && x[k] == v;
                assert(a[k + 1] == v);
                assert(before(a[0], a[k + 1]));
                assert(a.contains(v));
                assert(b.contains(v));
                let m = choose|m: int| 0 <= m < b.len() && b[m] == v;
                assert(m != 0);
                assert(y[m - 1] == v);
            }
            if y.contains(v) {
                let k = choose|k: int| 0 <= k < y.len() && y[k] == v;
                assert(b[k + 1] == v);
                assert(before(b[0], b[k + 1]));
                assert(b.contains(v));
                assert(a.contains(v));
                let m = choose|m: int| 0 <= m < a.len() && a[m] == v;
                assert(m != 0);
                assert(x[m - 1] == v);
            }
        }
        assert forall|p: int, q: int| 0 <= p < q < x.len() implies before(
            #[trigger] x[p],
            #[trigger] x[q],
        ) by {
            assert(before(a[p + 1], a[q + 1]));
        }
        assert forall|p: int, q: int| 0 <= p < q < y.len() implies before(
            #[trigger] y[p],
            #[trigger] y[q],
        ) by {
            assert(before(b[p + 1], b[q + 1]));
        }
        lemma_sorted_sequences_agree(x, y, before);
        assert(a == seq![a[0]] + x);
        assert(b == seq![b[0]] + y);
    }
}

/// An asymmetric relation determines the ordering of the positions below
/// `n`.
pub proof fn lemma_ordering_is_determined(
    n: nat,
    before: spec_fn(usize, usize) -> bool,
    first: Seq<usize>,
    second: Seq<usize>,
)
    requires
        is_ordering(first, n, before),
        is_ordering(second, n, before),
        is_asymmetric(before),
    ensures
        first == second,
{
    assert forall|x: usize| first.contains(x) <==> second.contains(x) by {
        if first.contains(x) {
            let i = choose|i: int| 0 <= i < first.len() && first[i] == x;
            assert(first[i] < n);
        }
        if second.contains(x) {
            let i = choose|i: int| 0 <= i < second.len() && second[i] == x;
            assert(second[i] < n);
        }
    }
    lemma_sorted_sequences_agree(first, second, before);
}

} // verus!
