//! The store itself: the three tables in memory, and the operations on
//! cards, collections and sub-collections.

use vstd::prelude::*;
use crate::invariants::{
    lemma_card_at, lemma_clear_skipped_wf, lemma_collection_at, lemma_default_proper,
    lemma_delete_card_wf, lemma_empty_wf, lemma_fresh_is_initialized, lemma_push_card_wf,
    lemma_push_sub_collection_wf, lemma_set_card_skipped_wf, lemma_sub_collection_at,
    lemma_update_card_wf, lemma_with_new_collection_wf,
};
use crate::model::{
    CardRow, CollectionView, Named, StoreError, StoredCard, StoredCollection,
    StoredSubCollection, SubCollectionView,
};
use crate::order::{lemma_arranges_strictly, order_by_name, places};
use crate::rows::{
    seed_null_sub_collection, seeded_sub_collections, store_of, well_formed_rows,
};
use crate::state::{
    card_has_key, cards_in, listed_card, sentinel, StoreView, DEFAULT_COLLECTION_NAME,
    NULL_SUB_COLLECTION_NAME,
};
use crate::text::{eq_ignore_ascii_case, lemma_trimmed_idempotent, str_less, trim};

verus! {

/// A store of flashcards: collections, their sub-collections and their
/// cards.
pub struct CardStore {
    collections: Vec<StoredCollection>,
    sub_collections: Vec<StoredSubCollection>,
    cards: Vec<CardRow>,
    last_collection_id: i64,
    last_sub_collection_id: i64,
    last_card_id: i64,
}

/// The size of a store at one moment: how many rows each table has, and
/// the last ids handed out.
pub(crate) struct Savepoint {
    collections: usize,
    sub_collections: usize,
    cards: usize,
    last_collection_id: i64,
    last_sub_collection_id: i64,
    last_card_id: i64,
}

impl Savepoint {
    /// This is the size of `s`.
    pub closed spec fn marks(&self, s: StoreView) -> bool {
        &&& self.collections == s.collections.len()
        &&& self.sub_collections == s.sub_collections.len()
        &&& self.cards == s.cards.len()
        &&& self.last_collection_id == s.last_collection_id
        &&& self.last_sub_collection_id == s.last_sub_collection_id
        &&& self.last_card_id == s.last_card_id
    }
}

impl View for CardStore {
    type V = StoreView;

    closed spec fn view(&self) -> StoreView {
        StoreView {
            collections: self.collections.deep_view(),
            sub_collections: self.sub_collections.deep_view(),
            cards: self.cards.deep_view(),
            last_collection_id: self.last_collection_id,
            last_sub_collection_id: self.last_sub_collection_id,
            last_card_id: self.last_card_id,
        }
    }
}

impl CardStore {
    /// The invariant of the store: that of its value.
    pub open spec fn wf(&self) -> bool {
        self@.wf()
    }

    /// A store with nothing in it but the collection "Default", which has
    /// id 1, and its reserved sub-collection, which has id 1.
    pub fn new() -> (r: CardStore)
        ensures
            r.wf(),
            r@ == StoreView::fresh(),
    {
        let mut store = CardStore {
            collections: Vec::new(),
            sub_collections: Vec::new(),
            cards: Vec::new(),
            last_collection_id: 0,
            last_sub_collection_id: 0,
            last_card_id: 0,
        };
        proof {
            assert(store@.collections =~= StoreView::empty().collections);
            assert(store@.sub_collections =~= StoreView::empty().sub_collections);
            assert(store@.cards =~= StoreView::empty().cards);
            lemma_empty_wf();
            lemma_default_proper();
        }
        let default_name = DEFAULT_COLLECTION_NAME.to_owned();
        store.push_new_collection(default_name);
        proof {
            lemma_fresh_is_initialized();
        }
        store
    }

    /// The store that three tables of rows and the last ids handed out
    /// make up, if that is a well-formed store: each table in the order of
    /// its ids, no id beyond the last one handed out, every name proper,
    /// no name twice among the collections or within a collection, every
    /// sub-collection in a collection that is there, every collection with
    /// its reserved sub-collection, every card in a sub-collection of its
    /// own collection, and no two cards with the same collection,
    /// sub-collection, question and answer.
    pub fn from_rows(
        collections: Vec<StoredCollection>,
        sub_collections: Vec<StoredSubCollection>,
        cards: Vec<CardRow>,
        last_collection_id: i64,
        last_sub_collection_id: i64,
        last_card_id: i64,
    ) -> (r: Option<CardStore>)
        ensures
            r is Some <==> store_of(
                collections.deep_view(),
                sub_collections.deep_view(),
                cards.deep_view(),
                last_collection_id,
                last_sub_collection_id,
                last_card_id,
            ).wf(),
            r matches Some(store) ==> store.wf() && store@ == store_of(
                collections.deep_view(),
                sub_collections.deep_view(),
                cards.deep_view(),
                last_collection_id,
                last_sub_collection_id,
                last_card_id,
            ),
    {
        if well_formed_rows(
            &collections,
            &sub_collections,
            &cards,
            last_collection_id,
            last_sub_collection_id,
            last_card_id,
        ) {
            Some(
                CardStore {
                    collections,
                    sub_collections,
                    cards,
                    last_collection_id,
                    last_sub_collection_id,
                    last_card_id,
                },
            )
        } else {
            None
        }
    }

    /// Opens a store on rows that come from outside: makes sure of the
    /// reserved sub-collection of the first collection, judges the rows as
    /// `from_rows` does, and makes sure of the collection "Default". Fails
    /// with `Inconsistent` if the rows, with that sub-collection added,
    /// do not make up a well-formed store, with `StoreFull` if "Default"
    /// is lacking and the ids are used up.
    pub fn open(
        collections: Vec<StoredCollection>,
        sub_collections: Vec<StoredSubCollection>,
        cards: Vec<CardRow>,
        last_collection_id: i64,
        last_sub_collection_id: i64,
        last_card_id: i64,
    ) -> (r: Result<CardStore, StoreError>)
        ensures
            ({
                let seeded = seeded_sub_collections(
                    collections.deep_view(),
                    sub_collections.deep_view(),
                    last_sub_collection_id,
                );
                let rows = store_of(
                    collections.deep_view(),
                    seeded.0,
                    cards.deep_view(),
                    last_collection_id,
                    seeded.1,
                    last_card_id,
                );
                match r {
                    Ok(store) => rows.wf() && store.wf() && rows.init_db() == (
                        store@,
                        Ok::<(), StoreError>(()),
                    ),
                    Err(e) => if rows.wf() {
                        rows.init_db().1 == Err::<(), StoreError>(e)
                    } else {
                        e == StoreError::Inconsistent
                    },
                }
            }),
    {
        let mut sub_collections = sub_collections;
        let last_sub_collection_id = seed_null_sub_collection(
            &collections,
            &mut sub_collections,
            last_sub_collection_id,
        );
        match CardStore::from_rows(
            collections,
            sub_collections,
            cards,
            last_collection_id,
            last_sub_collection_id,
            last_card_id,
        ) {
            Some(store) => {
                let mut store = store;
                match store.init_db() {
                    Ok(()) => Ok(store),
                    Err(e) => Err(e),
                }
            },
            None => Err(StoreError::Inconsistent),
        }
    }

    /// The collections, in the order of their ids.
    pub fn collections(&self) -> (r: &Vec<StoredCollection>)
        ensures
            r.deep_view() == self@.collections,
    {
        &self.collections
    }

    /// The sub-collections, the reserved ones too, in the order of their
    /// ids.
    pub fn sub_collections(&self) -> (r: &Vec<StoredSubCollection>)
        ensures
            r.deep_view() == self@.sub_collections,
    {
        &self.sub_collections
    }

    /// The cards, in the order of their ids.
    pub fn cards(&self) -> (r: &Vec<CardRow>)
        ensures
            r.deep_view() == self@.cards,
    {
        &self.cards
    }

    /// The last ids handed out: of a collection, of a sub-collection, of a
    /// card.
    pub fn last_ids(&self) -> (r: (i64, i64, i64))
        ensures
            r == (
                self@.last_collection_id,
                self@.last_sub_collection_id,
                self@.last_card_id,
            ),
    {
        (self.last_collection_id, self.last_sub_collection_id, self.last_card_id)
    }

    /// The size of the store now, to go back to.
    pub(crate) fn savepoint(&self) -> (p: Savepoint)
        ensures
            p.marks(self@),
    {
        Savepoint {
            collections: self.collections.len(),
            sub_collections: self.sub_collections.len(),
            cards: self.cards.len(),
            last_collection_id: self.last_collection_id,
            last_sub_collection_id: self.last_sub_collection_id,
            last_card_id: self.last_card_id,
        }
    }

    /// Goes back to the store that `p` is the size of, from a store that it
    /// has grown to: every row that came later is dropped.
    pub(crate) fn roll_back(&mut self, p: &Savepoint, Ghost(start): Ghost<StoreView>)
        requires
            p.marks(start),
            start.grows_to(old(self)@),
        ensures
            final(self)@ == start,
    {
        self.collections.truncate(p.collections);
        self.sub_collections.truncate(p.sub_collections);
        self.cards.truncate(p.cards);
        self.last_collection_id = p.last_collection_id;
        self.last_sub_collection_id = p.last_sub_collection_id;
        self.last_card_id = p.last_card_id;
        proof {
            assert(self@.collections =~= start.collections);
            assert(self@.sub_collections =~= start.sub_collections);
            assert(self@.cards =~= start.cards);
        }
    }

    /// Appends a collection and its reserved sub-collection.
    fn push_new_collection(&mut self, name: String) -> (id: i64)
        requires
            old(self).wf(),
            crate::text::proper_name(name@),
            !old(self)@.has_collection_named(name@),
            old(self)@.last_collection_id < i64::MAX,
            old(self)@.last_sub_collection_id < i64::MAX,
        ensures
            final(self).wf(),
            final(self)@ == old(self)@.with_new_collection(name@),
            id == old(self)@.last_collection_id + 1,
    {
        let id = self.last_collection_id + 1;
        let sub_id = self.last_sub_collection_id + 1;
        self.collections.push(StoredCollection { id, name });
        self.last_collection_id = id;
        self.sub_collections.push(
            StoredSubCollection {
                id: sub_id,
                name: NULL_SUB_COLLECTION_NAME.to_owned(),
                collection_id: id,
            },
        );
        self.last_sub_collection_id = sub_id;
        proof {
            lemma_with_new_collection_wf(old(self)@, name@);
            assert(self@.collections =~= old(self)@.with_new_collection(name@).collections);
            assert(self@.sub_collections =~= old(self)@.with_new_collection(
                name@,
            ).sub_collections);
            assert(self@.cards =~= old(self)@.cards);
        }
        id
    }

    /// Where the collection with this id stands.
    fn find_collection(&self, id: i64) -> (r: Option<usize>)
        requires
            self.wf(),
        ensures
            r is Some <==> self@.has_collection(id),
            r matches Some(i) ==> i < self.collections.len() && self.collections[i as int].id == id
                && self@.collection_name(id) == Some(self.collections[i as int].name@),
    {
        let mut i: usize = 0;
        while i < self.collections.len()
            invariant
                self.wf(),
                i <= self.collections.len(),
                forall|k: int| 0 <= k < i ==> self.collections[k].id != id,
            decreases self.collections.len() - i,
        {
            if self.collections[i].id == id {
                proof {
                    lemma_collection_at(self@, i as int);
                }
                return Some(i);
            }
            i += 1;
        }
        proof {
            if self@.has_collection(id) {
                let k = choose|k: int|
                    0 <= k < self@.collections.len() && (#[trigger] self@.collections[k]).id == id;
                assert(self.collections[k].id == id);
            }
        }
        None
    }

    /// Where the collection with exactly this name stands.
    fn find_collection_named(&self, name: &String) -> (r: Option<usize>)
        requires
            self.wf(),
        ensures
            r is Some <==> self@.has_collection_named(name@),
            r matches Some(i) ==> i < self.collections.len() && self.collections[i as int].name@
                == name@ && self@.collection_named(name@) == Some(self.collections[i as int].id),
    {
        let mut i: usize = 0;
        while i < self.collections.len()
            invariant
                self.wf(),
                i <= self.collections.len(),
                forall|k: int| 0 <= k < i ==> self.collections[k].name@ != name@,
            decreases self.collections.len() - i,
        {
            if self.collections[i].name == *name {
                proof {
                    lemma_collection_at(self@, i as int);
                }
                return Some(i);
            }
            i += 1;
        }
        proof {
            if self@.has_collection_named(name@) {
                let k = choose|k: int|
                    0 <= k < self@.collections.len() && (#[trigger] self@.collections[k]).name
                        == name@;
                assert(self.collections[k].name@ == name@);
            }
        }
        None
    }

    /// Where the sub-collection of `collection_id` with exactly this name
    /// stands.
    fn find_sub_named(&self, collection_id: i64, name: &String) -> (r: Option<usize>)
        requires
            self.wf(),
        ensures
            r is Some <==> self@.has_sub_named(collection_id, name@),
            r matches Some(i) ==> i < self.sub_collections.len()
                && self.sub_collections[i as int]@ == (SubCollectionView {
                id: self.sub_collections[i as int].id,
                name: name@,
                collection_id,
            }) && self@.sub_named(collection_id, name@) == Some(self.sub_collections[i as int].id)
                && self@.sub_in_collection(self.sub_collections[i as int].id, collection_id),
    {
        let mut i: usize = 0;
        while i < self.sub_collections.len()
            invariant
                self.wf(),
                i <= self.sub_collections.len(),
                forall|k: int|
                    0 <= k < i ==> !(self.sub_collections[k].collection_id == collection_id
                        && self.sub_collections[k].name@ == name@),
            decreases self.sub_collections.len() - i,
        {
            if self.sub_collections[i].collection_id == collection_id
                && self.sub_collections[i].name == *name {
                proof {
                    lemma_sub_collection_at(self@, i as int);
                }
                return Some(i);
            }
            i += 1;
        }
        proof {
            if self@.has_sub_named(collection_id, name@) {
                let k = choose|k: int|
                    0 <= k < self@.sub_collections.len() && (
                    #[trigger] self@.sub_collections[k]).collection_id == collection_id
                        && self@.sub_collections[k].name == name@;
                assert(self.sub_collections[k].name@ == name@);
            }
        }
        None
    }

    /// Where sub-collection `id` stands, if it belongs to `collection_id`.
    fn find_sub(&self, id: i64, collection_id: i64) -> (r: Option<usize>)
        requires
            self.wf(),
        ensures
            r is Some <==> self@.sub_in_collection(id, collection_id),
            r matches Some(i) ==> i < self.sub_collections.len()
                && self.sub_collections[i as int].id == id
                && self.sub_collections[i as int].collection_id == collection_id
                && self@.sub_name(id, collection_id) == Some(self.sub_collections[i as int].name@),
    {
        let mut i: usize = 0;
        while i < self.sub_collections.len()
            invariant
                self.wf(),
                i <= self.sub_collections.len(),
                forall|k: int|
                    0 <= k < i ==> !(self.sub_collections[k].id == id
                        && self.sub_collections[k].collection_id == collection_id),
            decreases self.sub_collections.len() - i,
        {
            if self.sub_collections[i].id == id && self.sub_collections[i].collection_id
                == collection_id {
                proof {
                    lemma_sub_collection_at(self@, i as int);
                }
                return Some(i);
            }
            i += 1;
        }
        proof {
            if self@.sub_in_collection(id, collection_id) {
                let k = choose|k: int|
                    0 <= k < self@.sub_collections.len() && (#[trigger] self@.sub_collections[k]).id
                        == id && self@.sub_collections[k].collection_id == collection_id;
                assert(self.sub_collections[k].id == id);
            }
        }
        None
    }

    /// The id of the reserved sub-collection of `collection_id`, which
    /// stands for "no sub-collection"; `NotFound` if there is no such
    /// collection.
    pub fn get_null_sub_collection_id(&self, collection_id: i64) -> (r: Result<i64, StoreError>)
        requires
            self.wf(),
        ensures
            match self@.null_sub_collection_id(collection_id) {
                Some(id) => r == Ok::<i64, StoreError>(id),
                None => r == Err::<i64, StoreError>(StoreError::NotFound),
            },
            r is Ok <==> self@.has_collection(collection_id),
    {
        let name = NULL_SUB_COLLECTION_NAME.to_owned();
        proof {
            if self@.has_collection(collection_id) {
                let k = choose|k: int|
                    0 <= k < self@.collections.len() && (#[trigger] self@.collections[k]).id
                        == collection_id;
                assert(self@.has_sub_named(self@.collections[k].id, sentinel()));
            }
            if self@.has_sub_named(collection_id, sentinel()) {
                let k = choose|k: int|
                    0 <= k < self@.sub_collections.len() && (
                    #[trigger] self@.sub_collections[k]).collection_id == collection_id
                        && self@.sub_collections[k].name == sentinel();
                assert(self@.has_collection(self@.sub_collections[k].collection_id));
            }
        }
        match self.find_sub_named(collection_id, &name) {
            Some(i) => Ok(self.sub_collections[i].id),
            None => Err(StoreError::NotFound),
        }
    }

    /// Makes sure the collection "Default" is there, with its reserved
    /// sub-collection. Running it again changes nothing.
    pub fn init_db(&mut self) -> (r: Result<(), StoreError>)
        requires
            old(self).wf(),
        ensures
            final(self).wf(),
            final(self)@ == old(self)@.init_db().0,
            r == old(self)@.init_db().1,
    {
        let name = DEFAULT_COLLECTION_NAME.to_owned();
        if self.find_collection_named(&name).is_some() {
            return Ok(());
        }
        if self.last_collection_id == i64::MAX || self.last_sub_collection_id == i64::MAX {
            return Err(StoreError::StoreFull);
        }
        proof {
            lemma_default_proper();
        }
        self.push_new_collection(name);
        Ok(())
    }

    /// Creates a collection under the trimmed name, together with its
    /// reserved sub-collection. Fails with `InvalidName` if nothing is left
    /// of the name, with `NameTaken` if a collection has it, with
    /// `StoreFull` if the ids are used up; the store is then unchanged.
    pub fn create_collection(&mut self, name: String) -> (r: Result<StoredCollection, StoreError>)
        requires
            old(self).wf(),
        ensures
            final(self).wf(),
            final(self)@ == old(self)@.create_collection(name@).0,
            match r {
                Ok(c) => old(self)@.create_collection(name@).1 == Ok::<CollectionView, StoreError>(
                    c@,
                ),
                Err(e) => old(self)@.create_collection(name@).1 == Err::<
                    CollectionView,
                    StoreError,
                >(e),
            },
    {
        let trimmed_name = trim(name.as_str()).to_owned();
        if trimmed_name.as_str().is_empty() {
            return Err(StoreError::InvalidName(Named::Collection));
        }
        if self.find_collection_named(&trimmed_name).is_some() {
            return Err(StoreError::NameTaken);
        }
        if self.last_collection_id == i64::MAX || self.last_sub_collection_id == i64::MAX {
            return Err(StoreError::StoreFull);
        }
        proof {
            lemma_trimmed_idempotent(name@);
        }
        let result_name = trimmed_name.clone();
        let id = self.push_new_collection(trimmed_name);
        Ok(StoredCollection { id, name: result_name })
    }

    /// Appends a sub-collection.
    fn push_sub_collection(&mut self, collection_id: i64, name: String) -> (id: i64)
        requires
            old(self).wf(),
            crate::text::proper_name(name@),
            old(self)@.has_collection(collection_id),
            !old(self)@.has_sub_named(collection_id, name@),
            old(self)@.last_sub_collection_id < i64::MAX,
        ensures
            final(self).wf(),
            final(self)@ == old(self)@.push_sub_collection(collection_id, name@),
            id == old(self)@.last_sub_collection_id + 1,
    {
        let id = self.last_sub_collection_id + 1;
        self.sub_collections.push(StoredSubCollection { id, name, collection_id });
        self.last_sub_collection_id = id;
        proof {
            lemma_push_sub_collection_wf(old(self)@, collection_id, name@);
            assert(self@.sub_collections =~= old(self)@.push_sub_collection(
                collection_id,
                name@,
            ).sub_collections);
            assert(self@.collections =~= old(self)@.collections);
            assert(self@.cards =~= old(self)@.cards);
        }
        id
    }

    /// Creates a sub-collection of `collection_id` under the trimmed name.
    /// Fails with `InvalidName` if nothing is left of the name, with
    /// `ReservedName` if it is the reserved name in any case of its
    /// letters, with `NotFound` if there is no such collection, with
    /// `NameTaken` if the collection has a sub-collection of that name,
    /// with `StoreFull` if the ids are used up; the store is then
    /// unchanged.
    pub fn create_sub_collection(&mut self, collection_id: i64, name: String) -> (r: Result<
        StoredSubCollection,
        StoreError,
    >)
        requires
            old(self).wf(),
        ensures
            final(self).wf(),
            final(self)@ == old(self)@.create_sub_collection(collection_id, name@).0,
            match r {
                Ok(c) => old(self)@.create_sub_collection(collection_id, name@).1 == Ok::<
                    SubCollectionView,
                    StoreError,
                >(c@),
                Err(e) => old(self)@.create_sub_collection(collection_id, name@).1 == Err::<
                    SubCollectionView,
                    StoreError,
                >(e),
            },
    {
        let trimmed_name = trim(name.as_str()).to_owned();
        if trimmed_name.as_str().is_empty() {
            return Err(StoreError::InvalidName(Named::SubCollection));
        }
        if eq_ignore_ascii_case(trimmed_name.as_str(), NULL_SUB_COLLECTION_NAME) {
            return Err(StoreError::ReservedName);
        }
        if self.find_collection(collection_id).is_none() {
            return Err(StoreError::NotFound);
        }
        if self.find_sub_named(collection_id, &trimmed_name).is_some() {
            return Err(StoreError::NameTaken);
        }
        if self.last_sub_collection_id == i64::MAX {
            return Err(StoreError::StoreFull);
        }
        proof {
            lemma_trimmed_idempotent(name@);
        }
        let result_name = trimmed_name.clone();
        let id = self.push_sub_collection(collection_id, trimmed_name);
        Ok(StoredSubCollection { id, name: result_name, collection_id })
    }

    /// Looks the trimmed name up among the sub-collections of
    /// `collection_id` and creates it if it is not there; either way
    /// returns its id. Fails with `InvalidName` if nothing is left of the
    /// name, with `NotFound` if there is no such collection, with
    /// `StoreFull` if the ids are used up; the store is then unchanged.
    pub fn get_or_create_sub_collection(&mut self, collection_id: i64, name: &str) -> (r: Result<
        i64,
        StoreError,
    >)
        requires
            old(self).wf(),
        ensures
            final(self).wf(),
            final(self)@ == old(self)@.get_or_create_sub_collection(collection_id, name@).0,
            r == old(self)@.get_or_create_sub_collection(collection_id, name@).1,
    {
        let trimmed_name = trim(name).to_owned();
        if trimmed_name.as_str().is_empty() {
            return Err(StoreError::InvalidName(Named::SubCollection));
        }
        match self.find_sub_named(collection_id, &trimmed_name) {
            Some(i) => {
                return Ok(self.sub_collections[i].id);
            },
            None => {},
        }
        if self.find_collection(collection_id).is_none() {
            return Err(StoreError::NotFound);
        }
        if self.last_sub_collection_id == i64::MAX {
            return Err(StoreError::StoreFull);
        }
        proof {
            lemma_trimmed_idempotent(name@);
        }
        let id = self.push_sub_collection(collection_id, trimmed_name);
        Ok(id)
    }

    /// The sub-collection a card goes to: the one given, else the reserved
    /// one of the collection; none if that is no sub-collection of the
    /// collection.
    fn resolve_sub_collection(&self, collection_id: i64, sub_collection_id: Option<i64>) -> (r:
        Option<i64>)
        requires
            self.wf(),
        ensures
            r == self@.resolve_sub_collection(collection_id, sub_collection_id),
    {
        match sub_collection_id {
            Some(id) => {
                if self.find_sub(id, collection_id).is_some() {
                    Some(id)
                } else {
                    None
                }
            },
            None => {
                match self.get_null_sub_collection_id(collection_id) {
                    Ok(id) => {
                        proof {
                            let k = choose|k: int|
                                0 <= k < self@.sub_collections.len() && (
                                #[trigger] self@.sub_collections[k]).collection_id == collection_id
                                    && self@.sub_collections[k].name == sentinel();
                            lemma_sub_collection_at(self@, k);
                        }
                        Some(id)
                    },
                    Err(_) => None,
                }
            },
        }
    }

    /// Where the card with this id stands.
    fn find_card(&self, id: i64) -> (r: Option<usize>)
        requires
            self.wf(),
        ensures
            r is Some <==> self@.has_card(id),
            r matches Some(i) ==> i < self.cards.len() && i == self@.card_index(id)
                && self.cards[i as int].id == id,
    {
        let mut i: usize = 0;
        while i < self.cards.len()
            invariant
                self.wf(),
                i <= self.cards.len(),
                forall|k: int| 0 <= k < i ==> self.cards[k].id != id,
            decreases self.cards.len() - i,
        {
            if self.cards[i].id == id {
                proof {
                    lemma_card_at(self@, i as int);
                }
                return Some(i);
            }
            i += 1;
        }
        proof {
            if self@.has_card(id) {
                let k = choose|k: int|
                    0 <= k < self@.cards.len() && (#[trigger] self@.cards[k]).id == id;
                assert(self.cards[k].id == id);
            }
        }
        None
    }

    /// Whether a card, other than the one with id `except` if that is
    /// given, holds this collection, sub-collection, question and answer.
    fn key_taken(
        &self,
        except: Option<i64>,
        collection_id: i64,
        sub_collection_id: i64,
        question: &String,
        answer: &String,
    ) -> (r: bool)
        ensures
            r == match except {
                Some(id) => self@.has_other_card_key(
                    id,
                    collection_id,
                    sub_collection_id,
                    question@,
                    answer@,
                ),
                None => self@.has_card_key(collection_id, sub_collection_id, question@, answer@),
            },
    {
        let mut i: usize = 0;
        while i < self.cards.len()
            invariant
                i <= self.cards.len(),
                forall|k: int|
                    0 <= k < i ==> !(card_has_key(
                        #[trigger] self.cards[k]@,
                        collection_id,
                        sub_collection_id,
                        question@,
                        answer@,
                    ) && (except is Some ==> self.cards[k].id != except.unwrap())),
            decreases self.cards.len() - i,
        {
            let c = &self.cards[i];
            let other = match except {
                Some(id) => c.id != id,
                None => true,
            };
            if other && c.collection_id == collection_id && c.sub_collection_id == sub_collection_id
                && c.question == *question && c.answer == *answer {
                assert(card_has_key(
                    self@.cards[i as int],
                    collection_id,
                    sub_collection_id,
                    question@,
                    answer@,
                ));
                return true;
            }
            i += 1;
        }
        proof {
            assert forall|k: int| 0 <= k < self@.cards.len() implies !(card_has_key(
                #[trigger] self@.cards[k],
                collection_id,
                sub_collection_id,
                question@,
                answer@,
            ) && (except is Some ==> self@.cards[k].id != except.unwrap())) by {
                assert(self@.cards[k] == self.cards[k]@);
            }
        }
        false
    }

    /// Inserts a card into sub-collection `sub_collection_id` of
    /// `collection_id`, not skipped. Fails with `NotFound` if that is no
    /// sub-collection of the collection, with `DuplicateCard` if a card
    /// holds the same collection, sub-collection, question and answer, with
    /// `StoreFull` if the ids are used up; the store is then unchanged.
    pub fn insert_card(
        &mut self,
        collection_id: i64,
        sub_collection_id: i64,
        question: String,
        answer: String,
        title: String,
    ) -> (r: Result<(), StoreError>)
        requires
            old(self).wf(),
        ensures
            final(self).wf(),
            final(self)@ == old(self)@.insert_card(
                collection_id,
                sub_collection_id,
                question@,
                answer@,
                title@,
            ).0,
            r == old(self)@.insert_card(
                collection_id,
                sub_collection_id,
                question@,
                answer@,
                title@,
            ).1,
    {
        if self.find_sub(sub_collection_id, collection_id).is_none() {
            return Err(StoreError::NotFound);
        }
        if self.key_taken(None, collection_id, sub_collection_id, &question, &answer) {
            return Err(StoreError::DuplicateCard);
        }
        if self.last_card_id == i64::MAX {
            return Err(StoreError::StoreFull);
        }
        let id = self.last_card_id + 1;
        self.cards.push(
            CardRow {
                id,
                question,
                answer,
                title,
                skipped: false,
                collection_id,
                sub_collection_id,
            },
        );
        self.last_card_id = id;
        proof {
            lemma_push_card_wf(
                old(self)@,
                collection_id,
                sub_collection_id,
                question@,
                answer@,
                title@,
            );
            assert(self@.cards =~= old(self)@.push_card(
                collection_id,
                sub_collection_id,
                question@,
                answer@,
                title@,
            ).cards);
            assert(self@.collections =~= old(self)@.collections);
            assert(self@.sub_collections =~= old(self)@.sub_collections);
        }
        Ok(())
    }

    /// Adds a card to a collection. Without a sub-collection the card goes
    /// to the reserved one of the collection; without a title it gets the
    /// empty title. Fails with `NotFound` if there is no such collection or
    /// the sub-collection is none of its own, with `DuplicateCard` if a
    /// card holds the same collection, sub-collection, question and answer,
    /// with `StoreFull` if the ids are used up; the store is then
    /// unchanged.
    pub fn add_card(
        &mut self,
        question: String,
        answer: String,
        collection_id: i64,
        title: Option<String>,
        sub_collection_id: Option<i64>,
    ) -> (r: Result<(), StoreError>)
        requires
            old(self).wf(),
        ensures
            final(self).wf(),
            final(self)@ == old(self)@.add_card(
                question@,
                answer@,
                collection_id,
                title.deep_view(),
                sub_collection_id,
            ).0,
            r == old(self)@.add_card(
                question@,
                answer@,
                collection_id,
                title.deep_view(),
                sub_collection_id,
            ).1,
    {
        let title = match title {
            Some(t) => t,
            None => String::new(),
        };
        match self.resolve_sub_collection(collection_id, sub_collection_id) {
            Some(sub) => self.insert_card(collection_id, sub, question, answer, title),
            None => Err(StoreError::NotFound),
        }
    }

    /// Rewrites question, answer, title, collection and sub-collection of
    /// the card with this id; its skipped flag stays. Without a
    /// sub-collection the card goes to the reserved one of the collection;
    /// without a title it gets the empty title. Nothing happens if no card
    /// has the id. Fails with `NotFound` if there is no such collection or
    /// the sub-collection is none of its own, with `DuplicateCard` if
    /// another card holds the same collection, sub-collection, question and
    /// answer; the store is then unchanged.
    pub fn update_card(
        &mut self,
        id: i64,
        question: String,
        answer: String,
        collection_id: i64,
        title: Option<String>,
        sub_collection_id: Option<i64>,
    ) -> (r: Result<(), StoreError>)
        requires
            old(self).wf(),
        ensures
            final(self).wf(),
            final(self)@ == old(self)@.update_card(
                id,
                question@,
                answer@,
                collection_id,
                title.deep_view(),
                sub_collection_id,
            ).0,
            r == old(self)@.update_card(
                id,
                question@,
                answer@,
                collection_id,
                title.deep_view(),
                sub_collection_id,
            ).1,
    {
        let ghost title_view = title.deep_view();
        let title = match title {
            Some(t) => t,
            None => String::new(),
        };
        let sub = match self.resolve_sub_collection(collection_id, sub_collection_id) {
            Some(sub) => sub,
            None => {
                return Err(StoreError::NotFound);
            },
        };
        let i = match self.find_card(id) {
            Some(i) => i,
            None => {
                return Ok(());
            },
        };
        if self.key_taken(Some(id), collection_id, sub, &question, &answer) {
            return Err(StoreError::DuplicateCard);
        }
        let skipped = self.cards[i].skipped;
        proof {
            lemma_update_card_wf(
                old(self)@,
                id,
                question@,
                answer@,
                collection_id,
                title_view,
                sub_collection_id,
            );
        }
        self.cards.set(
            i,
            CardRow {
                id,
                question,
                answer,
                title,
                skipped,
                collection_id,
                sub_collection_id: sub,
            },
        );
        proof {
            assert(self@.cards =~= old(self)@.update_card(
                id,
                question@,
                answer@,
                collection_id,
                title_view,
                sub_collection_id,
            ).0.cards);
            assert(self@.collections =~= old(self)@.collections);
            assert(self@.sub_collections =~= old(self)@.sub_collections);
        }
        Ok(())
    }

    /// Removes the card with this id; nothing happens if no card has it.
    pub fn delete_card(&mut self, id: i64)
        requires
            old(self).wf(),
        ensures
            final(self).wf(),
            final(self)@ == old(self)@.delete_card(id),
    {
        match self.find_card(id) {
            Some(i) => {
                let _ = self.cards.remove(i);
                proof {
                    lemma_delete_card_wf(old(self)@, id);
                    assert(self@.cards =~= old(self)@.delete_card(id).cards);
                    assert(self@.collections =~= old(self)@.collections);
                    assert(self@.sub_collections =~= old(self)@.sub_collections);
                }
            },
            None => {},
        }
    }

    /// Sets the skipped flag of the card with this id; nothing happens if
    /// no card has it.
    pub fn set_card_skipped(&mut self, card_id: i64, skipped: bool)
        requires
            old(self).wf(),
        ensures
            final(self).wf(),
            final(self)@ == old(self)@.set_card_skipped(card_id, skipped),
    {
        match self.find_card(card_id) {
            Some(i) => {
                self.cards[i].skipped = skipped;
                proof {
                    lemma_set_card_skipped_wf(old(self)@, card_id, skipped);
                    assert(self@.cards =~= old(self)@.set_card_skipped(card_id, skipped).cards);
                    assert(self@.collections =~= old(self)@.collections);
                    assert(self@.sub_collections =~= old(self)@.sub_collections);
                }
            },
            None => {},
        }
    }

    /// Clears the skipped flag of every card of `collection_id`.
    pub fn clear_skipped_for_collection(&mut self, collection_id: i64)
        requires
            old(self).wf(),
        ensures
            final(self).wf(),
            final(self)@ == old(self)@.clear_skipped_for_collection(collection_id),
    {
        let mut i: usize = 0;
        while i < self.cards.len()
            invariant
                i <= self.cards.len(),
                self.cards.len() == old(self).cards.len(),
                self.collections == old(self).collections,
                self.sub_collections == old(self).sub_collections,
                self.last_collection_id == old(self).last_collection_id,
                self.last_sub_collection_id == old(self).last_sub_collection_id,
                self.last_card_id == old(self).last_card_id,
                forall|k: int|
                    0 <= k < i ==> (#[trigger] self.cards[k])@ == old(
                        self,
                    )@.clear_skipped_for_collection(collection_id).cards[k],
                forall|k: int|
                    i <= k < self.cards.len() ==> (#[trigger] self.cards[k])@ == old(
                        self,
                    ).cards[k]@,
            decreases self.cards.len() - i,
        {
            if self.cards[i].collection_id == collection_id {
                self.cards[i].skipped = false;
            }
            i += 1;
        }
        proof {
            lemma_clear_skipped_wf(old(self)@, collection_id);
            assert(self@.cards =~= old(self)@.clear_skipped_for_collection(collection_id).cards);
        }
    }

    /// The cards of `collection_id`, by ascending id.
    pub fn get_cards(&self, collection_id: i64) -> (r: Vec<StoredCard>)
        requires
            self.wf(),
        ensures
            r.deep_view() == self@.card_listing(collection_id),
    {
        let mut out: Vec<StoredCard> = Vec::new();
        let mut i: usize = 0;
        assert(self@.cards.take(0) =~= Seq::empty());
        while i < self.cards.len()
            invariant
                i <= self.cards.len(),
                out.deep_view() =~= crate::state::listing_of(
                    cards_in(self@.cards.take(i as int), collection_id),
                ),
            decreases self.cards.len() - i,
        {
            let c = &self.cards[i];
            proof {
                crate::state::lemma_cards_in_step(self@.cards, i as int, collection_id);
            }
            if c.collection_id == collection_id {
                let ghost before = out.deep_view();
                let row = StoredCard {
                    id: c.id,
                    question: c.question.clone(),
                    answer: c.answer.clone(),
                    title: c.title.clone(),
                    skipped: c.skipped,
                    sub_collection_id: Some(c.sub_collection_id),
                };
                assert(row@ == listed_card(self@.cards[i as int]));
                out.push(row);
                assert(out.deep_view() =~= before.push(row@));
            }
            i += 1;
        }
        assert(self@.cards.take(self.cards.len() as int) =~= self@.cards);
        out
    }

    /// The name of the collection with this id.
    pub fn collection_name(&self, id: i64) -> (r: Option<String>)
        requires
            self.wf(),
        ensures
            r.deep_view() == self@.collection_name(id),
    {
        match self.find_collection(id) {
            Some(i) => Some(self.collections[i].name.clone()),
            None => None,
        }
    }

    /// The id of the collection with exactly this name.
    pub fn collection_named(&self, name: &String) -> (r: Option<i64>)
        requires
            self.wf(),
        ensures
            r == self@.collection_named(name@),
    {
        match self.find_collection_named(name) {
            Some(i) => Some(self.collections[i].id),
            None => None,
        }
    }

    /// The id of the sub-collection of `collection_id` with exactly this
    /// name.
    pub fn sub_collection_named(&self, collection_id: i64, name: &String) -> (r: Option<i64>)
        requires
            self.wf(),
        ensures
            r == self@.sub_named(collection_id, name@),
    {
        match self.find_sub_named(collection_id, name) {
            Some(i) => Some(self.sub_collections[i].id),
            None => None,
        }
    }

    /// All collections, ordered by name.
    pub fn get_collections(&self) -> (r: Vec<StoredCollection>)
        requires
            self.wf(),
        ensures
            self@.is_collection_listing(r.deep_view()),
            r.len() == self@.collections.len(),
    {
        let mut names: Vec<String> = Vec::new();
        let mut i: usize = 0;
        while i < self.collections.len()
            invariant
                i <= self.collections.len(),
                names.len() == i,
                forall|k: int| 0 <= k < i ==> (#[trigger] names[k])@ == self.collections[k].name@,
            decreases self.collections.len() - i,
        {
            names.push(self.collections[i].name.clone());
            i += 1;
        }
        let order = order_by_name(&names);
        let ghost ns = names.deep_view();
        proof {
            assert forall|a: int, b: int| 0 <= a < b < ns.len() implies ns[a] != ns[b] by {
                assert(self@.collections[a].name != self@.collections[b].name);
            }
            lemma_arranges_strictly(ns, order@);
        }
        let mut out: Vec<StoredCollection> = Vec::new();
        let mut k: usize = 0;
        while k < order.len()
            invariant
                k <= order.len(),
                out.len() == k,
                order.len() == self.collections.len(),
                forall|m: int|
                    0 <= m < order.len() ==> (#[trigger] order[m]) < self.collections.len(),
                forall|m: int|
                    0 <= m < k ==> (#[trigger] out[m])@ == self@.collections[order[m] as int],
            decreases order.len() - k,
        {
            let c = &self.collections[order[k]];
            out.push(StoredCollection { id: c.id, name: c.name.clone() });
            k += 1;
        }
        proof {
            let r = out.deep_view();
            assert forall|a: int, b: int| 0 <= a < b < r.len() implies str_less(
                (#[trigger] r[a]).name,
                (#[trigger] r[b]).name,
            ) by {
                assert(r[a] == out[a]@ && r[b] == out[b]@);
                assert(str_less(ns[order[a] as int], ns[order[b] as int]));
            }
            assert forall|a: int| 0 <= a < r.len() implies self@.collections.contains(
                #[trigger] r[a],
            ) by {
                assert(r[a] == out[a]@);
                assert(self@.collections[order[a] as int] == r[a]);
            }
            assert forall|j: int| 0 <= j < self@.collections.len() implies r.contains(
                #[trigger] self@.collections[j],
            ) by {
                assert(places(order@, j));
                let m = choose|m: int| 0 <= m < order@.len() && #[trigger] order@[m] == j;
                assert(r[m] == out[m]@);
            }
        }
        out
    }

    /// The sub-collections of `collection_id`, ordered by name, without
    /// the reserved one.
    pub fn get_sub_collections(&self, collection_id: i64) -> (r: Vec<StoredSubCollection>)
        requires
            self.wf(),
        ensures
            self@.is_sub_collection_listing(collection_id, r.deep_view()),
    {
        let reserved = NULL_SUB_COLLECTION_NAME.to_owned();
        let mut picked: Vec<usize> = Vec::new();
        let mut names: Vec<String> = Vec::new();
        let mut i: usize = 0;
        while i < self.sub_collections.len()
            invariant
                i <= self.sub_collections.len(),
                reserved@ == sentinel(),
                names.len() == picked.len(),
                forall|k: int|
                    0 <= k < picked.len() ==> {
                        &&& (#[trigger] picked[k]) < i
                        &&& self.sub_collections[picked[k] as int].collection_id == collection_id
                        &&& self.sub_collections[picked[k] as int].name@ != sentinel()
                        &&& names[k]@ == self.sub_collections[picked[k] as int].name@
                    },
                forall|k: int, l: int|
                    0 <= k < l < picked.len() ==> (#[trigger] picked[k]) < (#[trigger] picked[l]),
                forall|j: int|
                    0 <= j < i && self.sub_collections[j].collection_id == collection_id
                        && self.sub_collections[j].name@ != sentinel() ==> #[trigger] places(
                        picked@,
                        j,
                    ),
            decreases self.sub_collections.len() - i,
        {
            let sub = &self.sub_collections[i];
            if sub.collection_id == collection_id && sub.name != reserved {
                let ghost before = picked@;
                picked.push(i);
                names.push(sub.name.clone());
                proof {
                    assert(picked@[before.len() as int] == i);
                    assert forall|j: int|
                        0 <= j < i + 1 && self.sub_collections[j].collection_id == collection_id
                            && self.sub_collections[j].name@ != sentinel() implies #[trigger]
                        places(picked@, j) by {
                        if j < i {
                            assert(places(before, j));
                            let w = choose|w: int|
                                0 <= w < before.len() && #[trigger] before[w] == j;
                            assert(picked@[w] == j);
                        }
                    }
                }
            }
            i += 1;
        }
        let order = order_by_name(&names);
        let ghost ns = names.deep_view();
        proof {
            assert forall|a: int, b: int| 0 <= a < b < ns.len() implies ns[a] != ns[b] by {
                let x = picked[a] as int;
                let y = picked[b] as int;
                assert(x < y);
                assert(!(self@.sub_collections[x].collection_id
                    == self@.sub_collections[y].collection_id && self@.sub_collections[x].name
                    == self@.sub_collections[y].name));
            }
            lemma_arranges_strictly(ns, order@);
        }
        let mut out: Vec<StoredSubCollection> = Vec::new();
        let mut k: usize = 0;
        while k < order.len()
            invariant
                k <= order.len(),
                out.len() == k,
                order.len() == picked.len(),
                forall|m: int| 0 <= m < order.len() ==> (#[trigger] order[m]) < picked.len(),
                forall|m: int|
                    0 <= m < picked.len() ==> (#[trigger] picked[m]) < self.sub_collections.len(),
                forall|m: int|
                    0 <= m < k ==> (#[trigger] out[m])@
                        == self@.sub_collections[picked[order[m] as int] as int],
            decreases order.len() - k,
        {
            let c = &self.sub_collections[picked[order[k]]];
            out.push(
                StoredSubCollection {
                    id: c.id,
                    name: c.name.clone(),
                    collection_id: c.collection_id,
                },
            );
            k += 1;
        }
        proof {
            let r = out.deep_view();
            assert forall|a: int, b: int| 0 <= a < b < r.len() implies str_less(
                (#[trigger] r[a]).name,
                (#[trigger] r[b]).name,
            ) by {
                assert(r[a] == out[a]@ && r[b] == out[b]@);
                assert(str_less(ns[order[a] as int], ns[order[b] as int]));
            }
            assert forall|a: int| 0 <= a < r.len() implies {
                &&& self@.sub_collections.contains(#[trigger] r[a])
                &&& r[a].collection_id == collection_id
                &&& r[a].name != sentinel()
            } by {
                assert(r[a] == out[a]@);
                let x = picked[order[a] as int] as int;
                assert(self@.sub_collections[x] == r[a]);
            }
            assert forall|j: int|
                0 <= j < self@.sub_collections.len() && (
                #[trigger] self@.sub_collections[j]).collection_id == collection_id
                    && self@.sub_collections[j].name != sentinel() implies r.contains(
                self@.sub_collections[j],
            ) by {
                assert(self.sub_collections[j].collection_id == collection_id);
                assert(places(picked@, j));
                let w = choose|w: int| 0 <= w < picked@.len() && #[trigger] picked@[w] == j;
                assert(places(order@, w));
                let m = choose|m: int| 0 <= m < order@.len() && #[trigger] order@[m] == w;
                assert(r[m] == out[m]@);
            }
        }
        out
    }
}

} // verus!
