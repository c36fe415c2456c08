//! Each update of the store keeps it well formed.

use vstd::prelude::*;
use crate::model::StoreError;
use crate::state::{card_has_key, same_key, sentinel, StoreView, DEFAULT_COLLECTION_NAME};
use crate::text::{lemma_trimmed_fixed, proper_name};

verus! {

/// The reserved name is a proper name.
pub proof fn lemma_sentinel_proper()
    ensures
        proper_name(sentinel()),
        sentinel().len() == 8,
        sentinel()[0] == '-',
        sentinel()[7] == '-',
{
    reveal_strlit("- None -");
    lemma_trimmed_fixed(sentinel());
}

/// The name of the first collection is a proper name.
pub proof fn lemma_default_proper()
    ensures
        proper_name(DEFAULT_COLLECTION_NAME@),
{
    reveal_strlit("Default");
    lemma_trimmed_fixed(DEFAULT_COLLECTION_NAME@);
}

/// The empty store is well formed.
pub proof fn lemma_empty_wf()
    ensures
        StoreView::empty().wf(),
{
}

/// The store as it starts is the empty store with its first collection
/// made sure of.
pub proof fn lemma_fresh_is_initialized()
    ensures
        StoreView::empty().init_db() == (StoreView::fresh(), Ok::<(), StoreError>(())),
        StoreView::empty().with_new_collection(DEFAULT_COLLECTION_NAME@) == StoreView::fresh(),
{
}

/// Adding a sub-collection under a proper name that its collection does
/// not have yet keeps the store well formed.
pub proof fn lemma_push_sub_collection_wf(s: StoreView, collection_id: i64, name: Seq<char>)
    requires
        s.wf(),
        proper_name(name),
        s.has_collection(collection_id),
        !s.has_sub_named(collection_id, name),
        s.last_sub_collection_id < i64::MAX,
    ensures
        s.push_sub_collection(collection_id, name).wf(),
        s.push_sub_collection(collection_id, name).has_sub_named(collection_id, name),
        s.push_sub_collection(collection_id, name).sub_named(collection_id, name) == Some(
            (s.last_sub_collection_id + 1) as i64,
        ),
{
    let t = s.push_sub_collection(collection_id, name);
    let n = s.sub_collections.len() as int;
    assert(t.sub_collections[n].collection_id == collection_id && t.sub_collections[n].name
        == name);
    assert forall|i: int| 0 <= i < t.collections.len() implies t.has_sub_named(
        (#[trigger] t.collections[i]).id,
        sentinel(),
    ) by {
        assert(s.has_sub_named(s.collections[i].id, sentinel()));
        let k = choose|k: int|
            0 <= k < s.sub_collections.len() && (#[trigger] s.sub_collections[k]).collection_id
                == s.collections[i].id && s.sub_collections[k].name == sentinel();
        assert(t.sub_collections[k] == s.sub_collections[k]);
    }
    assert forall|i: int| 0 <= i < t.cards.len() implies t.sub_in_collection(
        (#[trigger] t.cards[i]).sub_collection_id,
        t.cards[i].collection_id,
    ) by {
        assert(s.sub_in_collection(s.cards[i].sub_collection_id, s.cards[i].collection_id));
        let k = choose|k: int|
            0 <= k < s.sub_collections.len() && (#[trigger] s.sub_collections[k]).id
                == s.cards[i].sub_collection_id && s.sub_collections[k].collection_id
                == s.cards[i].collection_id;
        assert(t.sub_collections[k] == s.sub_collections[k]);
    }
    assert(t.sub_collections_wf()) by {
        assert forall|i: int, j: int| 0 <= i < j < t.sub_collections.len() implies !((
        #[trigger] t.sub_collections[i]).collection_id == (
        #[trigger] t.sub_collections[j]).collection_id && t.sub_collections[i].name
            == t.sub_collections[j].name) by {
            if j == n {
                assert(s.sub_collections[i] == t.sub_collections[i]);
            } else {
                assert(s.sub_collections[i] == t.sub_collections[i]);
                assert(s.sub_collections[j] == t.sub_collections[j]);
            }
        }
        assert forall|i: int, j: int| 0 <= i < j < t.sub_collections.len() implies (
        #[trigger] t.sub_collections[i]).id < (#[trigger] t.sub_collections[j]).id by {
            assert(s.sub_collections[i] == t.sub_collections[i]);
            if j < n {
                assert(s.sub_collections[j] == t.sub_collections[j]);
            }
        }
        assert forall|i: int| 0 <= i < t.sub_collections.len() implies {
            &&& (#[trigger] t.sub_collections[i]).id <= t.last_sub_collection_id
            &&& proper_name(t.sub_collections[i].name)
            &&& t.has_collection(t.sub_collections[i].collection_id)
        } by {
            if i < n {
                assert(s.sub_collections[i] == t.sub_collections[i]);
            }
            let x = t.sub_collections[i].collection_id;
            assert(s.has_collection(x));
            let c = choose|c: int|
                0 <= c < s.collections.len() && (#[trigger] s.collections[c]).id == x;
            assert(t.collections[c].id == x);
        }
    }
    let w = choose|i: int|
        0 <= i < t.sub_collections.len() && (#[trigger] t.sub_collections[i]).collection_id
            == collection_id && t.sub_collections[i].name == name;
    if w < n {
        assert(s.sub_collections[w] == t.sub_collections[w]);
    }
}

/// Adding a collection under a proper name that no collection has yet,
/// with its reserved sub-collection, keeps the store well formed.
pub proof fn lemma_with_new_collection_wf(s: StoreView, name: Seq<char>)
    requires
        s.wf(),
        proper_name(name),
        !s.has_collection_named(name),
        s.last_collection_id < i64::MAX,
        s.last_sub_collection_id < i64::MAX,
    ensures
        s.with_new_collection(name).wf(),
        s.with_new_collection(name).has_collection((s.last_collection_id + 1) as i64),
        s.with_new_collection(name).collection_named(name) == Some(
            (s.last_collection_id + 1) as i64,
        ),
        s.with_new_collection(name).null_sub_collection_id((s.last_collection_id + 1) as i64)
            == Some((s.last_sub_collection_id + 1) as i64),
{
    let id = (s.last_collection_id + 1) as i64;
    let m = s.push_collection(name);
    let n = s.collections.len() as int;
    lemma_sentinel_proper();
    assert(m.collections[n].id == id);
    assert(m.collections_wf()) by {
        assert forall|i: int, j: int| 0 <= i < j < m.collections.len() implies (
        #[trigger] m.collections[i]).name != (#[trigger] m.collections[j]).name by {
            assert(s.collections[i] == m.collections[i]);
            if j < n {
                assert(s.collections[j] == m.collections[j]);
            }
        }
        assert forall|i: int, j: int| 0 <= i < j < m.collections.len() implies (
        #[trigger] m.collections[i]).id < (#[trigger] m.collections[j]).id by {
            assert(s.collections[i] == m.collections[i]);
            if j < n {
                assert(s.collections[j] == m.collections[j]);
            }
        }
        assert forall|i: int| 0 <= i < m.collections.len() implies (#[trigger] m.collections[i]).id
            <= m.last_collection_id && proper_name(m.collections[i].name) by {
            if i < n {
                assert(s.collections[i] == m.collections[i]);
            }
        }
    }
    assert(!m.has_sub_named(id, sentinel())) by {
        if m.has_sub_named(id, sentinel()) {
            let k = choose|k: int|
                0 <= k < m.sub_collections.len() && (#[trigger] m.sub_collections[k]).collection_id
                    == id && m.sub_collections[k].name == sentinel();
            assert(s.has_collection(s.sub_collections[k].collection_id));
            let c = choose|c: int|
                0 <= c < s.collections.len() && (#[trigger] s.collections[c]).id == id;
            assert(s.collections[c].id <= s.last_collection_id);
        }
    }
    // What the new collection still lacks is its reserved sub-collection;
    // everything else of the invariant holds of `m` already.
    let t = m.push_sub_collection(id, sentinel());
    let k = s.sub_collections.len() as int;
    assert(t.sub_collections[k].collection_id == id && t.sub_collections[k].name == sentinel());
    assert(t.collections_wf());
    assert(t.sub_collections_wf()) by {
        assert forall|i: int, j: int| 0 <= i < j < t.sub_collections.len() implies !((
        #[trigger] t.sub_collections[i]).collection_id == (
        #[trigger] t.sub_collections[j]).collection_id && t.sub_collections[i].name
            == t.sub_collections[j].name) by {
            assert(s.sub_collections[i] == t.sub_collections[i]);
            if j < k {
                assert(s.sub_collections[j] == t.sub_collections[j]);
            } else {
                assert(m.sub_collections[i].collection_id == t.sub_collections[i].collection_id);
            }
        }
        assert forall|i: int, j: int| 0 <= i < j < t.sub_collections.len() implies (
        #[trigger] t.sub_collections[i]).id < (#[trigger] t.sub_collections[j]).id by {
            assert(s.sub_collections[i] == t.sub_collections[i]);
            if j < k {
                assert(s.sub_collections[j] == t.sub_collections[j]);
            }
        }
        assert forall|i: int| 0 <= i < t.sub_collections.len() implies {
            &&& (#[trigger] t.sub_collections[i]).id <= t.last_sub_collection_id
            &&& proper_name(t.sub_collections[i].name)
            &&& t.has_collection(t.sub_collections[i].collection_id)
        } by {
            if i < k {
                assert(s.sub_collections[i] == t.sub_collections[i]);
                assert(s.has_collection(s.sub_collections[i].collection_id));
                let c = choose|c: int|
                    0 <= c < s.collections.len() && (#[trigger] s.collections[c]).id
                        == s.sub_collections[i].collection_id;
                assert(t.collections[c] == s.collections[c]);
            } else {
                assert(t.collections[n].id == id);
            }
        }
    }
    assert(t.sentinels_wf()) by {
        assert forall|i: int| 0 <= i < t.collections.len() implies t.has_sub_named(
            (#[trigger] t.collections[i]).id,
            sentinel(),
        ) by {
            if i < n {
                assert(s.collections[i] == t.collections[i]);
                assert(s.has_sub_named(s.collections[i].id, sentinel()));
                let w = choose|w: int|
                    0 <= w < s.sub_collections.len() && (
                    #[trigger] s.sub_collections[w]).collection_id == s.collections[i].id
                        && s.sub_collections[w].name == sentinel();
                assert(t.sub_collections[w] == s.sub_collections[w]);
            }
        }
    }
    assert(t.cards_wf()) by {
        assert forall|i: int| 0 <= i < t.cards.len() implies t.sub_in_collection(
            (#[trigger] t.cards[i]).sub_collection_id,
            t.cards[i].collection_id,
        ) by {
            assert(s.sub_in_collection(s.cards[i].sub_collection_id, s.cards[i].collection_id));
            let w = choose|w: int|
                0 <= w < s.sub_collections.len() && (#[trigger] s.sub_collections[w]).id
                    == s.cards[i].sub_collection_id && s.sub_collections[w].collection_id
                    == s.cards[i].collection_id;
            assert(t.sub_collections[w] == s.sub_collections[w]);
        }
    }
    assert(t.collections[n].name == name);
    let c = choose|c: int|
        0 <= c < t.collections.len() && (#[trigger] t.collections[c]).name == name;
    if c < n {
        assert(s.collections[c] == t.collections[c]);
    }
    let w = choose|w: int|
        0 <= w < t.sub_collections.len() && (#[trigger] t.sub_collections[w]).collection_id == id
            && t.sub_collections[w].name == sentinel();
    if w < k {
        assert(m.sub_collections[w] == t.sub_collections[w]);
    }
}

/// What holds of collections and sub-collections holds of every store
/// that has the same two tables.
pub proof fn lemma_same_tables(s: StoreView, t: StoreView)
    requires
        t.collections == s.collections,
        t.sub_collections == s.sub_collections,
        t.last_collection_id == s.last_collection_id,
        t.last_sub_collection_id == s.last_sub_collection_id,
    ensures
        s.collections_wf() ==> t.collections_wf(),
        s.sub_collections_wf() ==> t.sub_collections_wf(),
        s.sentinels_wf() ==> t.sentinels_wf(),
        forall|id: i64| #[trigger] t.has_collection(id) == s.has_collection(id),
        forall|id: i64| #[trigger] t.collection_name(id) == s.collection_name(id),
        forall|name: Seq<char>| #[trigger]
            t.has_collection_named(name) == s.has_collection_named(name),
        forall|name: Seq<char>| #[trigger] t.collection_named(name) == s.collection_named(name),
        forall|c: i64, name: Seq<char>| #[trigger]
            t.has_sub_named(c, name) == s.has_sub_named(c, name),
        forall|c: i64, name: Seq<char>| #[trigger] t.sub_named(c, name) == s.sub_named(c, name),
        forall|id: i64, c: i64| #[trigger] t.sub_in_collection(id, c) == s.sub_in_collection(id, c),
        forall|id: i64, c: i64| #[trigger] t.sub_name(id, c) == s.sub_name(id, c),
        forall|c: i64, sub: Option<i64>| #[trigger]
            t.resolve_sub_collection(c, sub) == s.resolve_sub_collection(c, sub),
{
}

/// Adding a card under a key that no card holds, in a sub-collection of its
/// collection, keeps the store well formed.
pub proof fn lemma_push_card_wf(
    s: StoreView,
    collection_id: i64,
    sub_collection_id: i64,
    question: Seq<char>,
    answer: Seq<char>,
    title: Seq<char>,
)
    requires
        s.wf(),
        s.sub_in_collection(sub_collection_id, collection_id),
        !s.has_card_key(collection_id, sub_collection_id, question, answer),
        s.last_card_id < i64::MAX,
    ensures
        s.push_card(collection_id, sub_collection_id, question, answer, title).wf(),
{
    let t = s.push_card(collection_id, sub_collection_id, question, answer, title);
    let n = s.cards.len() as int;
    lemma_same_tables(s, t);
    assert forall|i: int, j: int| 0 <= i < j < t.cards.len() implies !same_key(
        #[trigger] t.cards[i],
        #[trigger] t.cards[j],
    ) by {
        assert(s.cards[i] == t.cards[i]);
        if j < n {
            assert(s.cards[j] == t.cards[j]);
        }
    }
    assert forall|i: int, j: int| 0 <= i < j < t.cards.len() implies (#[trigger] t.cards[i]).id < (
    #[trigger] t.cards[j]).id by {
        assert(s.cards[i] == t.cards[i]);
        if j < n {
            assert(s.cards[j] == t.cards[j]);
        }
    }
    assert forall|i: int| 0 <= i < t.cards.len() implies {
        &&& (#[trigger] t.cards[i]).id <= t.last_card_id
        &&& t.sub_in_collection(t.cards[i].sub_collection_id, t.cards[i].collection_id)
    } by {
        if i < n {
            assert(s.cards[i] == t.cards[i]);
        }
    }
}

/// Rewriting a card so that no other card holds its new key, in a
/// sub-collection of its new collection, keeps the store well formed.
pub proof fn lemma_update_card_wf(
    s: StoreView,
    id: i64,
    question: Seq<char>,
    answer: Seq<char>,
    collection_id: i64,
    title: Option<Seq<char>>,
    sub_collection_id: Option<i64>,
)
    requires
        s.wf(),
    ensures
        s.update_card(id, question, answer, collection_id, title, sub_collection_id).0.wf(),
{
    let t = s.update_card(id, question, answer, collection_id, title, sub_collection_id).0;
    if t != s {
        let sub = s.resolve_sub_collection(collection_id, sub_collection_id).unwrap();
        let k = s.card_index(id);
        lemma_same_tables(s, t);
        assert forall|i: int, j: int| 0 <= i < j < t.cards.len() implies !same_key(
            #[trigger] t.cards[i],
            #[trigger] t.cards[j],
        ) by {
            assert(s.cards[i].id < s.cards[j].id);
            if i != k && j != k {
                assert(!same_key(s.cards[i], s.cards[j]));
            } else if i == k {
                assert(s.cards[j].id != id);
                assert(!card_has_key(s.cards[j], collection_id, sub, question, answer));
            } else {
                assert(s.cards[i].id != id);
                assert(!card_has_key(s.cards[i], collection_id, sub, question, answer));
            }
        }
        assert forall|i: int, j: int| 0 <= i < j < t.cards.len() implies (#[trigger] t.cards[i]).id
            < (#[trigger] t.cards[j]).id by {
            assert(s.cards[i].id < s.cards[j].id);
        }
        assert forall|i: int| 0 <= i < t.cards.len() implies {
            &&& (#[trigger] t.cards[i]).id <= t.last_card_id
            &&& t.sub_in_collection(t.cards[i].sub_collection_id, t.cards[i].collection_id)
        } by {
            assert(s.cards[i].id <= s.last_card_id);
        }
    }
}

/// Removing a card keeps the store well formed.
pub proof fn lemma_delete_card_wf(s: StoreView, id: i64)
    requires
        s.wf(),
    ensures
        s.delete_card(id).wf(),
        !s.delete_card(id).has_card(id),
{
    let t = s.delete_card(id);
    if s.has_card(id) {
        let k = s.card_index(id);
        lemma_same_tables(s, t);
        assert forall|i: int| 0 <= i < t.cards.len() implies (#[trigger] t.cards[i]) == s.cards[if i
            < k {
            i
        } else {
            i + 1
        }] by {}
        assert forall|i: int, j: int| 0 <= i < j < t.cards.len() implies !same_key(
            #[trigger] t.cards[i],
            #[trigger] t.cards[j],
        ) && t.cards[i].id < t.cards[j].id by {
            let a = if i < k { i } else { i + 1 };
            let b = if j < k { j } else { j + 1 };
            assert(!same_key(s.cards[a], s.cards[b]));
            assert(s.cards[a].id < s.cards[b].id);
        }
        assert forall|i: int| 0 <= i < t.cards.len() implies {
            &&& (#[trigger] t.cards[i]).id <= t.last_card_id
            &&& t.sub_in_collection(t.cards[i].sub_collection_id, t.cards[i].collection_id)
        } by {
            let a = if i < k { i } else { i + 1 };
            assert(s.cards[a].id <= s.last_card_id);
        }
        if t.has_card(id) {
            let w = choose|w: int| 0 <= w < t.cards.len() && (#[trigger] t.cards[w]).id == id;
            let a = if w < k { w } else { w + 1 };
            assert(s.cards[a].id == id);
            if a < k {
                assert(s.cards[a].id < s.cards[k].id);
            } else {
                assert(s.cards[k].id < s.cards[a].id);
            }
        }
    }
}

/// Setting the skipped flag of a card keeps the store well formed.
pub proof fn lemma_set_card_skipped_wf(s: StoreView, id: i64, skipped: bool)
    requires
        s.wf(),
    ensures
        s.set_card_skipped(id, skipped).wf(),
{
    let t = s.set_card_skipped(id, skipped);
    if s.has_card(id) {
        lemma_same_tables(s, t);
        assert forall|i: int, j: int| 0 <= i < j < t.cards.len() implies !same_key(
            #[trigger] t.cards[i],
            #[trigger] t.cards[j],
        ) && t.cards[i].id < t.cards[j].id by {
            assert(!same_key(s.cards[i], s.cards[j]));
            assert(s.cards[i].id < s.cards[j].id);
        }
        assert forall|i: int| 0 <= i < t.cards.len() implies {
            &&& (#[trigger] t.cards[i]).id <= t.last_card_id
            &&& t.sub_in_collection(t.cards[i].sub_collection_id, t.cards[i].collection_id)
        } by {
            assert(s.cards[i].id <= s.last_card_id);
        }
    }
}

/// Clearing the skipped flags of a collection keeps the store well formed.
pub proof fn lemma_clear_skipped_wf(s: StoreView, collection_id: i64)
    requires
        s.wf(),
    ensures
        s.clear_skipped_for_collection(collection_id).wf(),
{
    let t = s.clear_skipped_for_collection(collection_id);
    lemma_same_tables(s, t);
    assert forall|i: int, j: int| 0 <= i < j < t.cards.len() implies !same_key(
        #[trigger] t.cards[i],
        #[trigger] t.cards[j],
    ) && t.cards[i].id < t.cards[j].id by {
        assert(!same_key(s.cards[i], s.cards[j]));
        assert(s.cards[i].id < s.cards[j].id);
    }
    assert forall|i: int| 0 <= i < t.cards.len() implies {
        &&& (#[trigger] t.cards[i]).id <= t.last_card_id
        &&& t.sub_in_collection(t.cards[i].sub_collection_id, t.cards[i].collection_id)
    } by {
        assert(s.cards[i].id <= s.last_card_id);
    }
}

/// In a well-formed store a collection is found by its id and by its name.
pub proof fn lemma_collection_at(s: StoreView, i: int)
    requires
        s.collections_wf(),
        0 <= i < s.collections.len(),
    ensures
        s.has_collection(s.collections[i].id),
        s.collection_name(s.collections[i].id) == Some(s.collections[i].name),
        s.has_collection_named(s.collections[i].name),
        s.collection_named(s.collections[i].name) == Some(s.collections[i].id),
{
}

/// In a well-formed store a sub-collection is found by its id and by its
/// name within its collection.
pub proof fn lemma_sub_collection_at(s: StoreView, i: int)
    requires
        s.sub_collections_wf(),
        0 <= i < s.sub_collections.len(),
    ensures
        s.has_sub_named(s.sub_collections[i].collection_id, s.sub_collections[i].name),
        s.sub_named(s.sub_collections[i].collection_id, s.sub_collections[i].name) == Some(
            s.sub_collections[i].id,
        ),
        s.sub_in_collection(s.sub_collections[i].id, s.sub_collections[i].collection_id),
        s.sub_name(s.sub_collections[i].id, s.sub_collections[i].collection_id) == Some(
            s.sub_collections[i].name,
        ),
{
}

/// In a well-formed store a card is found by its id.
pub proof fn lemma_card_at(s: StoreView, i: int)
    requires
        s.cards_wf(),
        0 <= i < s.cards.len(),
    ensures
        s.has_card(s.cards[i].id),
        s.card_index(s.cards[i].id) == i,
{
}

} // verus!
