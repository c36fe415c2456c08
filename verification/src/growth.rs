//! Stores that only grow: what an insertion or an import leaves behind
//! holds everything that was there before, in its place.

use vstd::prelude::*;
use crate::invariants::{
    lemma_default_proper, lemma_push_card_wf, lemma_push_sub_collection_wf,
    lemma_with_new_collection_wf,
};
use crate::state::{card_has_key, sentinel, StoreView, DEFAULT_COLLECTION_NAME};
use crate::text::{lemma_trimmed_idempotent, trimmed};

verus! {

/// `a` is the beginning of `b`.
pub open spec fn begins<T>(a: Seq<T>, b: Seq<T>) -> bool {
    &&& a.len() <= b.len()
    &&& forall|i: int| 0 <= i < a.len() ==> #[trigger] a[i] == b[i]
}

impl StoreView {
    /// `t` holds every row of this store, in its place, and has handed out
    /// at least as many ids.
    pub open spec fn grows_to(self, t: StoreView) -> bool {
        &&& begins(self.collections, t.collections)
        &&& begins(self.sub_collections, t.sub_collections)
        &&& begins(self.cards, t.cards)
        &&& self.last_collection_id <= t.last_collection_id
        &&& self.last_sub_collection_id <= t.last_sub_collection_id
        &&& self.last_card_id <= t.last_card_id
    }
}

/// Growing is transitive, and every store grows to itself.
pub proof fn lemma_grows_chain(s: StoreView, t: StoreView, u: StoreView)
    requires
        s.grows_to(t),
        t.grows_to(u),
    ensures
        s.grows_to(u),
        s.grows_to(s),
{
}

/// A collection name that was taken stays taken, by the same collection.
pub proof fn lemma_grown_collection_named(s: StoreView, t: StoreView, name: Seq<char>)
    requires
        s.grows_to(t),
        t.collections_wf(),
        s.has_collection_named(name),
    ensures
        t.has_collection_named(name),
        t.collection_named(name) == s.collection_named(name),
{
}

/// A sub-collection that was there by name stays there, under the same id.
pub proof fn lemma_grown_sub_named(s: StoreView, t: StoreView, collection_id: i64, name: Seq<char>)
    requires
        s.grows_to(t),
        t.sub_collections_wf(),
        s.has_sub_named(collection_id, name),
    ensures
        t.has_sub_named(collection_id, name),
        t.sub_named(collection_id, name) == s.sub_named(collection_id, name),
        t.sub_in_collection(s.sub_named(collection_id, name).unwrap(), collection_id),
        t.sub_name(s.sub_named(collection_id, name).unwrap(), collection_id) == Some(name),
{
}

/// A sub-collection that was there by id stays there, under the same name.
pub proof fn lemma_grown_sub(s: StoreView, t: StoreView, id: i64, collection_id: i64)
    requires
        s.grows_to(t),
        t.sub_collections_wf(),
        s.sub_in_collection(id, collection_id),
    ensures
        t.sub_in_collection(id, collection_id),
        t.sub_name(id, collection_id) == s.sub_name(id, collection_id),
{
}

/// A key that a card held is still held.
pub proof fn lemma_grown_card_key(
    s: StoreView,
    t: StoreView,
    collection_id: i64,
    sub_collection_id: i64,
    question: Seq<char>,
    answer: Seq<char>,
)
    requires
        s.grows_to(t),
        s.has_card_key(collection_id, sub_collection_id, question, answer),
    ensures
        t.has_card_key(collection_id, sub_collection_id, question, answer),
{
}

/// Creating a collection keeps the store well formed and only makes it
/// grow; where it succeeds, the collection is there under its trimmed
/// name, with its reserved sub-collection and nothing else.
pub proof fn lemma_create_collection(s: StoreView, name: Seq<char>)
    requires
        s.wf(),
    ensures
        s.create_collection(name).0.wf(),
        s.grows_to(s.create_collection(name).0),
        s.create_collection(name).0.cards == s.cards,
        s.create_collection(name).1 matches Ok(c) ==> {
            let t = s.create_collection(name).0;
            &&& c.name == trimmed(name)
            &&& c.id == s.last_collection_id + 1
            &&& !s.has_collection(c.id)
            &&& t.has_collection(c.id)
            &&& t.collection_named(c.name) == Some(c.id)
            &&& t.null_sub_collection_id(c.id) == Some((s.last_sub_collection_id + 1) as i64)
            &&& forall|n: Seq<char>| #[trigger] t.has_sub_named(c.id, n) <==> n == sentinel()
        },
{
    let t = s.create_collection(name).0;
    if s.create_collection(name).1 is Ok {
        let n = trimmed(name);
        let id = (s.last_collection_id + 1) as i64;
        lemma_trimmed_idempotent(name);
        lemma_with_new_collection_wf(s, n);
        if s.has_collection(id) {
            let k = choose|k: int|
                0 <= k < s.collections.len() && (#[trigger] s.collections[k]).id == id;
            assert(s.collections[k].id <= s.last_collection_id);
        }
        assert forall|m: Seq<char>| #[trigger] t.has_sub_named(id, m) <==> m == sentinel() by {
            if t.has_sub_named(id, m) {
                let k = choose|k: int|
                    0 <= k < t.sub_collections.len() && (
                    #[trigger] t.sub_collections[k]).collection_id == id
                        && t.sub_collections[k].name == m;
                if k < s.sub_collections.len() {
                    assert(s.sub_collections[k] == t.sub_collections[k]);
                    assert(s.has_collection(s.sub_collections[k].collection_id));
                }
            }
            if m == sentinel() {
                assert(t.null_sub_collection_id(id) is Some);
            }
        }
    }
}

/// Making sure of the first collection keeps the store well formed and
/// only makes it grow.
pub proof fn lemma_init_db(s: StoreView)
    requires
        s.wf(),
    ensures
        s.init_db().0.wf(),
        s.grows_to(s.init_db().0),
        s.init_db().1 is Ok ==> s.init_db().0.has_collection_named(DEFAULT_COLLECTION_NAME@),
{
    if !s.has_collection_named(DEFAULT_COLLECTION_NAME@) && s.init_db().1 is Ok {
        lemma_default_proper();
        lemma_with_new_collection_wf(s, DEFAULT_COLLECTION_NAME@);
    }
}

/// Looking a sub-collection up, or creating it, keeps the store well
/// formed and only makes it grow; where it succeeds, the sub-collection is
/// there under the trimmed name, and no other name was added anywhere.
pub proof fn lemma_get_or_create_sub_collection(s: StoreView, collection_id: i64, name: Seq<char>)
    requires
        s.wf(),
    ensures
        s.get_or_create_sub_collection(collection_id, name).0.wf(),
        s.grows_to(s.get_or_create_sub_collection(collection_id, name).0),
        s.get_or_create_sub_collection(collection_id, name).0.cards == s.cards,
        s.get_or_create_sub_collection(collection_id, name).0.collections == s.collections,
        s.get_or_create_sub_collection(collection_id, name).0.last_collection_id
            == s.last_collection_id,
        s.get_or_create_sub_collection(collection_id, name).0.last_card_id == s.last_card_id,
        s.get_or_create_sub_collection(collection_id, name).1 matches Ok(id) ==> {
            let t = s.get_or_create_sub_collection(collection_id, name).0;
            &&& t.sub_named(collection_id, trimmed(name)) == Some(id)
            &&& forall|c: i64, n: Seq<char>| #[trigger]
                t.has_sub_named(c, n) <==> s.has_sub_named(c, n) || (c == collection_id && n
                    == trimmed(name))
        },
{
    let t = s.get_or_create_sub_collection(collection_id, name).0;
    let n = trimmed(name);
    if s.get_or_create_sub_collection(collection_id, name).1 is Ok {
        if !s.has_sub_named(collection_id, n) {
            lemma_trimmed_idempotent(name);
            lemma_push_sub_collection_wf(s, collection_id, n);
            let last = s.sub_collections.len() as int;
            assert forall|c: i64, m: Seq<char>| #[trigger]
                t.has_sub_named(c, m) <==> s.has_sub_named(c, m) || (c == collection_id && m
                    == n) by {
                if t.has_sub_named(c, m) {
                    let k = choose|k: int|
                        0 <= k < t.sub_collections.len() && (
                        #[trigger] t.sub_collections[k]).collection_id == c
                            && t.sub_collections[k].name == m;
                    if k < last {
                        assert(s.sub_collections[k] == t.sub_collections[k]);
                    }
                }
                if s.has_sub_named(c, m) {
                    let k = choose|k: int|
                        0 <= k < s.sub_collections.len() && (
                        #[trigger] s.sub_collections[k]).collection_id == c
                            && s.sub_collections[k].name == m;
                    assert(t.sub_collections[k] == s.sub_collections[k]);
                }
            }
        }
    }
}

/// Inserting a card keeps the store well formed and only makes it grow;
/// whether it succeeds or finds the card stored already, the card's key is
/// held afterwards.
pub proof fn lemma_insert_card(
    s: StoreView,
    collection_id: i64,
    sub_collection_id: i64,
    question: Seq<char>,
    answer: Seq<char>,
    title: Seq<char>,
)
    requires
        s.wf(),
    ensures
        ({
            let r = s.insert_card(collection_id, sub_collection_id, question, answer, title);
            &&& r.0.wf()
            &&& s.grows_to(r.0)
            &&& r.0.collections == s.collections
            &&& r.0.sub_collections == s.sub_collections
            &&& r.0.last_collection_id == s.last_collection_id
            &&& r.0.last_sub_collection_id == s.last_sub_collection_id
            &&& (r.1 is Ok || r.1 == Err::<(), crate::model::StoreError>(
                crate::model::StoreError::DuplicateCard,
            )) ==> r.0.has_card_key(collection_id, sub_collection_id, question, answer)
        }),
{
    let r = s.insert_card(collection_id, sub_collection_id, question, answer, title);
    if r.1 is Ok {
        lemma_push_card_wf(s, collection_id, sub_collection_id, question, answer, title);
        assert(card_has_key(
            r.0.cards[s.cards.len() as int],
            collection_id,
            sub_collection_id,
            question,
            answer,
        ));
    }
}

} // verus!
