//! Ordering rows by name: the arrangement of a list of names in which they
//! ascend.

use vstd::prelude::*;
use crate::text::{
    lemma_str_less_irreflexive, lemma_str_less_total, lemma_str_less_transitive, str_less, str_lt,
};

verus! {

/// Position `i` stands somewhere in `order`.
pub open spec fn places(order: Seq<usize>, i: int) -> bool {
    exists|k: int| 0 <= k < order.len() && #[trigger] order[k] == i
}

/// `order` arranges the first `n` positions of `names`, each once, so that
/// no name stands before a smaller one and equal names keep their order.
pub open spec fn arranges(names: Seq<Seq<char>>, order: Seq<usize>, n: int) -> bool {
    &&& order.len() == n
    &&& forall|k: int| 0 <= k < order.len() ==> (#[trigger] order[k]) < n
    &&& forall|k: int, l: int|
        0 <= k < l < order.len() ==> (#[trigger] order[k]) != (#[trigger] order[l])
    &&& forall|i: int| 0 <= i < n ==> #[trigger] places(order, i)
    &&& forall|k: int, l: int|
        0 <= k < l < order.len() ==> !str_less(
            names[(#[trigger] order[l]) as int],
            names[(#[trigger] order[k]) as int],
        )
    &&& forall|k: int, l: int|
        0 <= k < l < order.len() && names[(#[trigger] order[k]) as int] == names[(
        #[trigger] order[l]) as int] ==> order[k] < order[l]
}

/// The names in the order that `order` gives their positions.
pub open spec fn arranged(names: Seq<Seq<char>>, order: Seq<usize>) -> Seq<Seq<char>> {
    Seq::new(order.len(), |k: int| names[order[k] as int])
}

/// `r` holds the names, each as often as `names` holds it, and none before
/// a smaller one.
pub open spec fn is_ascending_arrangement(r: Seq<Seq<char>>, names: Seq<Seq<char>>) -> bool {
    exists|order: Seq<usize>|
        arranges(names, order, names.len() as int) && #[trigger] arranged(names, order) == r
}

/// Where names differ pairwise, an arrangement puts them in strictly
/// ascending order.
pub proof fn lemma_arranges_strictly(names: Seq<Seq<char>>, order: Seq<usize>)
    requires
        arranges(names, order, names.len() as int),
        forall|i: int, j: int| 0 <= i < j < names.len() ==> names[i] != names[j],
    ensures
        forall|k: int, l: int|
            0 <= k < l < order.len() ==> str_less(
                names[(#[trigger] order[k]) as int],
                names[(#[trigger] order[l]) as int],
            ),
{
    assert forall|k: int, l: int| 0 <= k < l < order.len() implies str_less(
        names[(#[trigger] order[k]) as int],
        names[(#[trigger] order[l]) as int],
    ) by {
        let a = order[k] as int;
        let b = order[l] as int;
        assert(a != b);
        if a < b {
            assert(names[a] != names[b]);
        } else {
            assert(names[b] != names[a]);
        }
        lemma_str_less_total(names[a], names[b]);
    }
}

/// The positions of `names`, arranged so that the names ascend; names that
/// are equal keep their order.
pub fn order_by_name(names: &Vec<String>) -> (order: Vec<usize>)
    ensures
        arranges(names.deep_view(), order@, names.len() as int),
{
    let mut order: Vec<usize> = Vec::new();
    let mut i: usize = 0;
    while i < names.len()
        invariant
            i <= names.len(),
            arranges(names.deep_view(), order@, i as int),
        decreases names.len() - i,
    {
        let mut p: usize = 0;
        while p < order.len() && !str_lt(names[i].as_str(), names[order[p]].as_str())
            invariant
                i < names.len(),
                p <= order.len(),
                arranges(names.deep_view(), order@, i as int),
                forall|k: int|
                    0 <= k < p ==> !str_less(
                        names.deep_view()[i as int],
                        names.deep_view()[(#[trigger] order[k]) as int],
                    ),
            decreases order.len() - p,
        {
            p += 1;
        }
        let ghost before = order@;
        let ghost ns = names.deep_view();
        order.insert(p, i);
        proof {
            before.insert_ensures(p as int, i);
            let after = order@;
            assert forall|k: int, l: int| 0 <= k < l < after.len() implies !str_less(
                ns[(#[trigger] after[l]) as int],
                ns[(#[trigger] after[k]) as int],
            ) by {
                if l == p {
                    assert(after[k] == before[k]);
                } else if k == p {
                    assert(after[l] == before[l - 1]);
                    assert(str_less(ns[i as int], ns[before[p as int] as int]));
                    if str_less(ns[before[l - 1] as int], ns[i as int]) {
                        lemma_str_less_transitive(
                            ns[before[l - 1] as int],
                            ns[i as int],
                            ns[before[p as int] as int],
                        );
                        if l - 1 == p {
                            lemma_str_less_irreflexive(ns[before[p as int] as int]);
                        }
                    }
                } else {
                    let a = if k < p { k } else { k - 1 };
                    let b = if l < p { l } else { l - 1 };
                    assert(after[k] == before[a]);
                    assert(after[l] == before[b]);
                }
            }
            assert forall|k: int, l: int|
                0 <= k < l < after.len() && ns[(#[trigger] after[k]) as int] == ns[(
                #[trigger] after[l]) as int] implies after[k] < after[l] by {
                if l == p {
                    assert(after[k] == before[k]);
                } else if k == p {
                    assert(after[l] == before[l - 1]);
                    assert(str_less(ns[i as int], ns[before[p as int] as int]));
                    if l - 1 == p {
                        lemma_str_less_irreflexive(ns[i as int]);
                    }
                } else {
                    let a = if k < p { k } else { k - 1 };
                    let b = if l < p { l } else { l - 1 };
                    assert(after[k] == before[a]);
                    assert(after[l] == before[b]);
                }
            }
            assert forall|k: int| 0 <= k < after.len() implies (#[trigger] after[k]) < i + 1 by {
                if k < p {
                    assert(after[k] == before[k]);
                } else if k > p {
                    assert(after[k] == before[k - 1]);
                }
            }
            assert forall|k: int, l: int| 0 <= k < l < after.len() implies (
            #[trigger] after[k]) != (#[trigger] after[l]) by {
                let a = if k < p { k } else { k - 1 };
                let b = if l < p { l } else { l - 1 };
                if k != p {
                    assert(after[k] == before[a]);
                }
                if l != p {
                    assert(after[l] == before[b]);
                }
            }
            assert forall|j: int| 0 <= j < i + 1 implies #[trigger] places(after, j) by {
                if j == i {
                    assert(after[p as int] == j);
                } else {
                    assert(places(before, j));
                    let k0 = choose|k: int| 0 <= k < before.len() && #[trigger] before[k] == j;
                    if k0 < p {
                        assert(after[k0] == j);
                    } else {
                        assert(after[k0 + 1] == j);
                    }
                }
            }
        }
        i += 1;
    }
    order
}

/// Two sequences that hold the same items, each in strictly ascending
/// order of the items' names, are one sequence.
pub proof fn lemma_ascending_unique<T>(a: Seq<T>, b: Seq<T>, name: spec_fn(T) -> Seq<char>)
    requires
        forall|i: int, j: int|
            0 <= i < j < a.len() ==> str_less(name(#[trigger] a[i]), name(#[trigger] a[j])),
        forall|i: int, j: int|
            0 <= i < j < b.len() ==> str_less(name(#[trigger] b[i]), name(#[trigger] b[j])),
        forall|i: int| 0 <= i < a.len() ==> b.contains(#[trigger] a[i]),
        forall|i: int| 0 <= i < b.len() ==> a.contains(#[trigger] b[i]),
    ensures
        a == b,
    decreases a.len(),
{
    if a.len() == 0 {
        if b.len() > 0 {
            assert(a.contains(b[0]));
        }
        assert(a =~= b);
    } else {
        let x = a.last();
        assert(b.contains(a[a.len() - 1]));
        let p = choose|p: int| 0 <= p < b.len() && b[p] == x;
        let y = b.last();
        assert(a.contains(b[b.len() - 1]));
        let q = choose|q: int| 0 <= q < a.len() && a[q] == y;
        if p < b.len() - 1 {
            assert(str_less(name(b[p]), name(b[b.len() - 1])));
            if q < a.len() - 1 {
                assert(str_less(name(a[q]), name(a[a.len() - 1])));
                crate::text::lemma_str_less_asymmetric(name(x), name(y));
            } else {
                lemma_str_less_irreflexive(name(x));
            }
        }
        assert(p == b.len() - 1);
        let a0 = a.drop_last();
        let b0 = b.drop_last();
        assert forall|i: int| 0 <= i < a0.len() implies b0.contains(#[trigger] a0[i]) by {
            assert(a0[i] == a[i]);
            assert(b.contains(a[i]));
            let w = choose|w: int| 0 <= w < b.len() && b[w] == a[i];
            assert(str_less(name(a[i]), name(a[a.len() - 1])));
            if w == b.len() - 1 {
                lemma_str_less_irreflexive(name(x));
            }
            assert(b0[w] == a0[i]);
        }
        assert forall|i: int| 0 <= i < b0.len() implies a0.contains(#[trigger] b0[i]) by {
            assert(b0[i] == b[i]);
            assert(a.contains(b[i]));
            let w = choose|w: int| 0 <= w < a.len() && a[w] == b[i];
            assert(str_less(name(b[i]), name(b[b.len() - 1])));
            if w == a.len() - 1 {
                lemma_str_less_irreflexive(name(x));
            }
            assert(a0[w] == b0[i]);
        }
        assert forall|i: int, j: int| 0 <= i < j < a0.len() implies str_less(
            name(#[trigger] a0[i]),
            name(#[trigger] a0[j]),
        ) by {
            assert(a0[i] == a[i] && a0[j] == a[j]);
        }
        assert forall|i: int, j: int| 0 <= i < j < b0.len() implies str_less(
            name(#[trigger] b0[i]),
            name(#[trigger] b0[j]),
        ) by {
            assert(b0[i] == b[i] && b0[j] == b[j]);
        }
        lemma_ascending_unique(a0, b0, name);
        assert(a =~= a0.push(x));
        assert(b =~= b0.push(x));
    }
}

} // verus!
