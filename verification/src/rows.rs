//! Rows that come from outside the store: whether three tables of rows
//! make up a well-formed store.

use vstd::prelude::*;
use crate::model::{
    CardRow, CardView, CollectionView, StoredCollection, StoredSubCollection, SubCollectionView,
};
use crate::state::{
    same_key, sentinel, StoreView, FIRST_COLLECTION_ID, NULL_SUB_COLLECTION_NAME,
};
use crate::text::{proper_name, trim};

verus! {

/// The store that three tables of rows and the last ids handed out make up.
pub open spec fn store_of(
    collections: Seq<CollectionView>,
    sub_collections: Seq<SubCollectionView>,
    cards: Seq<CardView>,
    last_collection_id: i64,
    last_sub_collection_id: i64,
    last_card_id: i64,
) -> StoreView {
    StoreView {
        collections,
        sub_collections,
        cards,
        last_collection_id,
        last_sub_collection_id,
        last_card_id,
    }
}

/// Whether a name is not empty and has nothing to trim.
fn is_proper_name(name: &String) -> (r: bool)
    ensures
        r == proper_name(name@),
{
    let t = trim(name.as_str()).to_owned();
    !name.as_str().is_empty() && t == *name
}

/// Whether some collection has this id.
fn collection_exists(collections: &Vec<StoredCollection>, id: i64) -> (r: bool)
    ensures
        r == exists|i: int| 0 <= i < collections.len() && (#[trigger] collections[i]).id == id,
{
    let mut i: usize = 0;
    while i < collections.len()
        invariant
            i <= collections.len(),
            forall|k: int| 0 <= k < i ==> (#[trigger] collections[k]).id != id,
        decreases collections.len() - i,
    {
        if collections[i].id == id {
            return true;
        }
        i += 1;
    }
    false
}

/// Whether sub-collection `id` is there and belongs to `collection_id`.
fn sub_collection_exists(subs: &Vec<StoredSubCollection>, id: i64, collection_id: i64) -> (r: bool)
    ensures
        r == exists|i: int|
            0 <= i < subs.len() && (#[trigger] subs[i]).id == id && subs[i].collection_id
                == collection_id,
{
    let mut i: usize = 0;
    while i < subs.len()
        invariant
            i <= subs.len(),
            forall|k: int|
                0 <= k < i ==> !((#[trigger] subs[k]).id == id && subs[k].collection_id
                    == collection_id),
        decreases subs.len() - i,
    {
        if subs[i].id == id && subs[i].collection_id == collection_id {
            return true;
        }
        i += 1;
    }
    false
}

/// Whether `collection_id` has a sub-collection of exactly this name.
fn sub_collection_named_exists(
    subs: &Vec<StoredSubCollection>,
    collection_id: i64,
    name: &String,
) -> (r: bool)
    ensures
        r == exists|i: int|
            0 <= i < subs.len() && (#[trigger] subs[i]).collection_id == collection_id
                && subs[i].name@ == name@,
{
    let mut i: usize = 0;
    while i < subs.len()
        invariant
            i <= subs.len(),
            forall|k: int|
                0 <= k < i ==> !((#[trigger] subs[k]).collection_id == collection_id
                    && subs[k].name@ == name@),
        decreases subs.len() - i,
    {
        if subs[i].collection_id == collection_id && subs[i].name == *name {
            return true;
        }
        i += 1;
    }
    false
}

/// The first collection is there and lacks its reserved sub-collection.
pub open spec fn lacks_first_null_sub_collection(
    collections: Seq<CollectionView>,
    sub_collections: Seq<SubCollectionView>,
) -> bool {
    &&& exists|i: int|
        0 <= i < collections.len() && (#[trigger] collections[i]).id == FIRST_COLLECTION_ID
    &&& !exists|j: int|
        0 <= j < sub_collections.len() && (#[trigger] sub_collections[j]).collection_id
            == FIRST_COLLECTION_ID && sub_collections[j].name == sentinel()
}

/// The sub-collections, and the last id handed out for them, once the
/// reserved sub-collection of the first collection is made sure of: where
/// it is lacking and an id is left, it is added at the end under the next
/// id.
pub open spec fn seeded_sub_collections(
    collections: Seq<CollectionView>,
    sub_collections: Seq<SubCollectionView>,
    last_sub_collection_id: i64,
) -> (Seq<SubCollectionView>, i64) {
    if lacks_first_null_sub_collection(collections, sub_collections) && last_sub_collection_id
        < i64::MAX {
        (
            sub_collections.push(
                SubCollectionView {
                    id: (last_sub_collection_id + 1) as i64,
                    name: sentinel(),
                    collection_id: FIRST_COLLECTION_ID,
                },
            ),
            (last_sub_collection_id + 1) as i64,
        )
    } else {
        (sub_collections, last_sub_collection_id)
    }
}

/// Makes sure of the reserved sub-collection of the first collection in
/// rows that come from outside: where the first collection is there
/// without it and an id is left, adds it at the end under the next id.
/// Returns the last id handed out for sub-collections afterwards.
pub fn seed_null_sub_collection(
    collections: &Vec<StoredCollection>,
    sub_collections: &mut Vec<StoredSubCollection>,
    last_sub_collection_id: i64,
) -> (r: i64)
    ensures
        (final(sub_collections).deep_view(), r) == seeded_sub_collections(
            collections.deep_view(),
            old(sub_collections).deep_view(),
            last_sub_collection_id,
        ),
{
    let reserved = NULL_SUB_COLLECTION_NAME.to_owned();
    let first = collection_exists(collections, FIRST_COLLECTION_ID);
    let seeded = sub_collection_named_exists(sub_collections, FIRST_COLLECTION_ID, &reserved);
    let ghost cs = collections.deep_view();
    let ghost subs = sub_collections.deep_view();
    proof {
        if first {
            let i = choose|i: int|
                0 <= i < collections.len() && (#[trigger] collections[i]).id == FIRST_COLLECTION_ID;
            assert(cs[i].id == FIRST_COLLECTION_ID);
        }
        if exists|i: int| 0 <= i < cs.len() && (#[trigger] cs[i]).id == FIRST_COLLECTION_ID {
            let i = choose|i: int|
                0 <= i < cs.len() && (#[trigger] cs[i]).id == FIRST_COLLECTION_ID;
            assert(collections[i].id == FIRST_COLLECTION_ID);
        }
        if seeded {
            let j = choose|j: int|
                0 <= j < sub_collections.len() && (#[trigger] sub_collections[j]).collection_id
                    == FIRST_COLLECTION_ID && sub_collections[j].name@ == reserved@;
            assert(subs[j].collection_id == FIRST_COLLECTION_ID && subs[j].name == sentinel());
        }
        if exists|j: int|
            0 <= j < subs.len() && (#[trigger] subs[j]).collection_id == FIRST_COLLECTION_ID
                && subs[j].name == sentinel() {
            let j = choose|j: int|
                0 <= j < subs.len() && (#[trigger] subs[j]).collection_id == FIRST_COLLECTION_ID
                    && subs[j].name == sentinel();
            assert(sub_collections[j].collection_id == FIRST_COLLECTION_ID
                && sub_collections[j].name@ == reserved@);
        }
    }
    if first && !seeded && last_sub_collection_id < i64::MAX {
        let id = last_sub_collection_id + 1;
        sub_collections.push(
            StoredSubCollection { id, name: reserved, collection_id: FIRST_COLLECTION_ID },
        );
        proof {
            assert(sub_collections.deep_view() =~= subs.push(
                SubCollectionView { id, name: sentinel(), collection_id: FIRST_COLLECTION_ID },
            ));
        }
        id
    } else {
        last_sub_collection_id
    }
}

/// The ids of `stored` that no card has, in their order.
pub open spec fn ids_without_card(stored: Seq<i64>, cards: Seq<CardView>) -> Seq<i64>
    decreases stored.len(),
{
    if stored.len() == 0 {
        Seq::empty()
    } else {
        let rest = ids_without_card(stored.drop_last(), cards);
        if exists|k: int| 0 <= k < cards.len() && (#[trigger] cards[k]).id == stored.last() {
            rest
        } else {
            rest.push(stored.last())
        }
    }
}

/// Whether some card has this id.
fn card_exists(cards: &Vec<CardRow>, id: i64) -> (r: bool)
    ensures
        r == exists|k: int| 0 <= k < cards.len() && (#[trigger] cards.deep_view()[k]).id == id,
{
    let mut i: usize = 0;
    while i < cards.len()
        invariant
            i <= cards.len(),
            forall|k: int| 0 <= k < i ==> (#[trigger] cards.deep_view()[k]).id != id,
        decreases cards.len() - i,
    {
        if cards[i].id == id {
            assert(cards.deep_view()[i as int].id == id);
            return true;
        }
        i += 1;
    }
    false
}

/// The ids of cards that were written earlier and that the store no
/// longer holds: those of `stored` that no card of `cards` has, in their
/// order.
pub fn cards_to_delete(stored: &Vec<i64>, cards: &Vec<CardRow>) -> (r: Vec<i64>)
    ensures
        r@ == ids_without_card(stored@, cards.deep_view()),
{
    let mut out: Vec<i64> = Vec::new();
    let mut i: usize = 0;
    assert(stored@.take(0) =~= Seq::<i64>::empty());
    while i < stored.len()
        invariant
            i <= stored.len(),
            out@ == ids_without_card(stored@.take(i as int), cards.deep_view()),
        decreases stored.len() - i,
    {
        proof {
            assert(stored@.take(i + 1).drop_last() =~= stored@.take(i as int));
            assert(stored@.take(i + 1).last() == stored[i as int]);
        }
        if !card_exists(cards, stored[i]) {
            out.push(stored[i]);
        }
        i += 1;
    }
    assert(stored@.take(stored.len() as int) =~= stored@);
    out
}

/// Whether the collections are well formed.
fn collections_well_formed(
    collections: &Vec<StoredCollection>,
    last_collection_id: i64,
    Ghost(s): Ghost<StoreView>,
) -> (r: bool)
    requires
        s.collections == collections.deep_view(),
        s.last_collection_id == last_collection_id,
    ensures
        r == s.collections_wf(),
{
    let ghost rows = collections.deep_view();
    let mut i: usize = 0;
    while i < collections.len()
        invariant
            i <= collections.len(),
            rows == collections.deep_view(),
            s.collections == rows,
            s.last_collection_id == last_collection_id,
            forall|k: int|
                0 <= k < i ==> (#[trigger] rows[k]).id <= last_collection_id && proper_name(
                    rows[k].name,
                ),
            forall|a: int, b: int|
                0 <= a < b < i ==> (#[trigger] rows[a]).id < (#[trigger] rows[b]).id,
            forall|a: int, b: int|
                0 <= a < b < i ==> (#[trigger] rows[a]).name != (#[trigger] rows[b]).name,
        decreases collections.len() - i,
    {
        let c = &collections[i];
        assert(rows[i as int] == c@);
        if c.id > last_collection_id || !is_proper_name(&c.name) {
            assert(!(s.collections[i as int].id <= s.last_collection_id && proper_name(
                s.collections[i as int].name,
            )));
            return false;
        }
        if i > 0 && collections[i - 1].id >= c.id {
            assert(!(s.collections[i - 1].id < s.collections[i as int].id));
            return false;
        }
        let mut j: usize = 0;
        while j < i
            invariant
                j <= i < collections.len(),
                rows == collections.deep_view(),
                s.collections == rows,
                forall|a: int| 0 <= a < j ==> (#[trigger] rows[a]).name != rows[i as int].name,
            decreases i - j,
        {
            if collections[j].name == collections[i].name {
                assert(s.collections[j as int].name == s.collections[i as int].name);
                return false;
            }
            j += 1;
        }
        proof {
            assert forall|a: int, b: int| 0 <= a < b < i + 1 implies (#[trigger] rows[a]).id < (
            #[trigger] rows[b]).id by {
                if b == i && a < i - 1 {
                    assert(rows[a].id < rows[i - 1].id);
                }
            }
        }
        i += 1;
    }
    true
}

/// Whether the sub-collections are well formed, and each collection has
/// its reserved one.
fn sub_collections_well_formed(
    collections: &Vec<StoredCollection>,
    subs: &Vec<StoredSubCollection>,
    last_sub_collection_id: i64,
    Ghost(s): Ghost<StoreView>,
) -> (r: bool)
    requires
        s.collections == collections.deep_view(),
        s.sub_collections == subs.deep_view(),
        s.last_sub_collection_id == last_sub_collection_id,
    ensures
        r == (s.sub_collections_wf() && s.sentinels_wf()),
{
    let ghost cs = collections.deep_view();
    let ghost rows = subs.deep_view();
    let mut i: usize = 0;
    while i < subs.len()
        invariant
            i <= subs.len(),
            cs == collections.deep_view(),
            rows == subs.deep_view(),
            s.collections == cs,
            s.sub_collections == rows,
            s.last_sub_collection_id == last_sub_collection_id,
            forall|k: int|
                0 <= k < i ==> {
                    &&& (#[trigger] rows[k]).id <= last_sub_collection_id
                    &&& proper_name(rows[k].name)
                    &&& s.has_collection(rows[k].collection_id)
                },
            forall|a: int, b: int|
                0 <= a < b < i ==> (#[trigger] rows[a]).id < (#[trigger] rows[b]).id,
            forall|a: int, b: int|
                0 <= a < b < i ==> !((#[trigger] rows[a]).collection_id == (
                #[trigger] rows[b]).collection_id && rows[a].name == rows[b].name),
        decreases subs.len() - i,
    {
        let c = &subs[i];
        assert(rows[i as int] == c@);
        if c.id > last_sub_collection_id || !is_proper_name(&c.name) {
            assert(!(s.sub_collections[i as int].id <= s.last_sub_collection_id && proper_name(
                s.sub_collections[i as int].name,
            )));
            return false;
        }
        let known = collection_exists(collections, c.collection_id);
        proof {
            if s.has_collection(c.collection_id) {
                let w = choose|w: int|
                    0 <= w < s.collections.len() && (#[trigger] s.collections[w]).id
                        == c.collection_id;
                assert(collections[w].id == c.collection_id);
            }
            if known {
                let w = choose|w: int|
                    0 <= w < collections.len() && (#[trigger] collections[w]).id == c.collection_id;
                assert(s.collections[w].id == c.collection_id);
            }
        }
        if !known {
            assert(!s.has_collection(s.sub_collections[i as int].collection_id));
            return false;
        }
        if i > 0 && subs[i - 1].id >= c.id {
            assert(!(s.sub_collections[i - 1].id < s.sub_collections[i as int].id));
            return false;
        }
        let mut j: usize = 0;
        while j < i
            invariant
                j <= i < subs.len(),
                rows == subs.deep_view(),
                s.sub_collections == rows,
                forall|a: int|
                    0 <= a < j ==> !((#[trigger] rows[a]).collection_id
                        == rows[i as int].collection_id && rows[a].name == rows[i as int].name),
            decreases i - j,
        {
            if subs[j].collection_id == subs[i].collection_id && subs[j].name == subs[i].name {
                assert(s.sub_collections[j as int].collection_id
                    == s.sub_collections[i as int].collection_id && s.sub_collections[j as int].name
                    == s.sub_collections[i as int].name);
                return false;
            }
            j += 1;
        }
        proof {
            assert forall|a: int, b: int| 0 <= a < b < i + 1 implies (#[trigger] rows[a]).id < (
            #[trigger] rows[b]).id by {
                if b == i && a < i - 1 {
                    assert(rows[a].id < rows[i - 1].id);
                }
            }
        }
        i += 1;
    }
    assert(s.sub_collections_wf());
    let reserved = NULL_SUB_COLLECTION_NAME.to_owned();
    let mut k: usize = 0;
    while k < collections.len()
        invariant
            k <= collections.len(),
            cs == collections.deep_view(),
            rows == subs.deep_view(),
            s.collections == cs,
            s.sub_collections == rows,
            s.sub_collections_wf(),
            reserved@ == sentinel(),
            forall|m: int| 0 <= m < k ==> s.has_sub_named((#[trigger] cs[m]).id, sentinel()),
        decreases collections.len() - k,
    {
        let id = collections[k].id;
        let found = sub_collection_named_exists(subs, id, &reserved);
        proof {
            assert(cs[k as int].id == id);
            if s.has_sub_named(id, sentinel()) {
                let w = choose|w: int|
                    0 <= w < s.sub_collections.len() && (
                    #[trigger] s.sub_collections[w]).collection_id == id
                        && s.sub_collections[w].name == sentinel();
                assert(subs[w].collection_id == id && subs[w].name@ == reserved@);
            }
            if found {
                let w = choose|w: int|
                    0 <= w < subs.len() && (#[trigger] subs[w]).collection_id == id && subs[w].name@
                        == reserved@;
                assert(s.sub_collections[w].collection_id == id && s.sub_collections[w].name
                    == sentinel());
            }
        }
        if !found {
            assert(!s.has_sub_named(s.collections[k as int].id, sentinel()));
            return false;
        }
        k += 1;
    }
    true
}

/// Whether the cards are well formed.
fn cards_well_formed(
    subs: &Vec<StoredSubCollection>,
    cards: &Vec<CardRow>,
    last_card_id: i64,
    Ghost(s): Ghost<StoreView>,
) -> (r: bool)
    requires
        s.sub_collections == subs.deep_view(),
        s.cards == cards.deep_view(),
        s.last_card_id == last_card_id,
    ensures
        r == s.cards_wf(),
{
    let ghost ss = subs.deep_view();
    let ghost rows = cards.deep_view();
    let mut i: usize = 0;
    while i < cards.len()
        invariant
            i <= cards.len(),
            ss == subs.deep_view(),
            rows == cards.deep_view(),
            s.sub_collections == ss,
            s.cards == rows,
            s.last_card_id == last_card_id,
            forall|k: int|
                0 <= k < i ==> {
                    &&& (#[trigger] rows[k]).id <= last_card_id
                    &&& s.sub_in_collection(rows[k].sub_collection_id, rows[k].collection_id)
                },
            forall|a: int, b: int|
                0 <= a < b < i ==> (#[trigger] rows[a]).id < (#[trigger] rows[b]).id,
            forall|a: int, b: int|
                0 <= a < b < i ==> !same_key(#[trigger] rows[a], #[trigger] rows[b]),
        decreases cards.len() - i,
    {
        let c = &cards[i];
        assert(rows[i as int] == c@);
        if c.id > last_card_id {
            assert(!(s.cards[i as int].id <= s.last_card_id));
            return false;
        }
        let known = sub_collection_exists(subs, c.sub_collection_id, c.collection_id);
        proof {
            if s.sub_in_collection(c.sub_collection_id, c.collection_id) {
                let w = choose|w: int|
                    0 <= w < s.sub_collections.len() && (#[trigger] s.sub_collections[w]).id
                        == c.sub_collection_id && s.sub_collections[w].collection_id
                        == c.collection_id;
                assert(subs[w].id == c.sub_collection_id);
            }
            if known {
                let w = choose|w: int|
                    0 <= w < subs.len() && (#[trigger] subs[w]).id == c.sub_collection_id
                        && subs[w].collection_id == c.collection_id;
                assert(s.sub_collections[w].id == c.sub_collection_id);
            }
        }
        if !known {
            assert(!s.sub_in_collection(
                s.cards[i as int].sub_collection_id,
                s.cards[i as int].collection_id,
            ));
            return false;
        }
        if i > 0 && cards[i - 1].id >= c.id {
            assert(!(s.cards[i - 1].id < s.cards[i as int].id));
            return false;
        }
        let mut j: usize = 0;
        while j < i
            invariant
                j <= i < cards.len(),
                rows == cards.deep_view(),
                s.cards == rows,
                forall|a: int| 0 <= a < j ==> !same_key(#[trigger] rows[a], rows[i as int]),
            decreases i - j,
        {
            let o = &cards[j];
            let c = &cards[i];
            if o.collection_id == c.collection_id && o.sub_collection_id == c.sub_collection_id
                && o.question == c.question && o.answer == c.answer {
                assert(same_key(s.cards[j as int], s.cards[i as int]));
                return false;
            }
            j += 1;
        }
        proof {
            assert forall|a: int, b: int| 0 <= a < b < i + 1 implies (#[trigger] rows[a]).id < (
            #[trigger] rows[b]).id by {
                if b == i && a < i - 1 {
                    assert(rows[a].id < rows[i - 1].id);
                }
            }
        }
        i += 1;
    }
    true
}

/// Whether three tables of rows, each in the order of its ids, and the
/// last ids handed out make up a well-formed store.
pub fn well_formed_rows(
    collections: &Vec<StoredCollection>,
    sub_collections: &Vec<StoredSubCollection>,
    cards: &Vec<CardRow>,
    last_collection_id: i64,
    last_sub_collection_id: i64,
    last_card_id: i64,
) -> (r: bool)
    ensures
        r == store_of(
            collections.deep_view(),
            sub_collections.deep_view(),
            cards.deep_view(),
            last_collection_id,
            last_sub_collection_id,
            last_card_id,
        ).wf(),
{
    let ghost s = store_of(
        collections.deep_view(),
        sub_collections.deep_view(),
        cards.deep_view(),
        last_collection_id,
        last_sub_collection_id,
        last_card_id,
    );
    let a = collections_well_formed(collections, last_collection_id, Ghost(s));
    if !a {
        return false;
    }
    let b = sub_collections_well_formed(
        collections,
        sub_collections,
        last_sub_collection_id,
        Ghost(s),
    );
    if !b {
        return false;
    }
    cards_well_formed(sub_collections, cards, last_card_id, Ghost(s))
}

} // verus!
