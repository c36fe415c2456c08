//! The store as a mathematical value: three tables of rows and the last id
//! each table handed out, what makes such a value well formed, and what
//! each operation of the store does to it.

use vstd::prelude::*;
use crate::model::{
    CardView, CollectionView, Named, StoreError, StoredCardView, SubCollectionView,
};
use crate::text::{eq_ignoring_ascii_case, proper_name, str_less, trimmed};

verus! {

/// The name of the sub-collection that every collection owns and that
/// stands for "no sub-collection".
pub const NULL_SUB_COLLECTION_NAME: &'static str = "- None -";

/// The id of the first collection, whose reserved sub-collection is made
/// sure of when rows come from outside.
pub const FIRST_COLLECTION_ID: i64 = 1;

/// The name of the collection that a fresh store starts with.
pub const DEFAULT_COLLECTION_NAME: &'static str = "Default";

/// The reserved sub-collection name, as a sequence of characters.
pub open spec fn sentinel() -> Seq<char> {
    NULL_SUB_COLLECTION_NAME@
}

/// A title that was not given is the empty title.
pub open spec fn title_or_empty(title: Option<Seq<char>>) -> Seq<char> {
    match title {
        Some(t) => t,
        None => Seq::empty(),
    }
}

/// The cards of `cards` that belong to collection `collection_id`, in
/// their stored order.
pub open spec fn cards_in(cards: Seq<CardView>, collection_id: i64) -> Seq<CardView>
    decreases cards.len(),
{
    if cards.len() == 0 {
        Seq::empty()
    } else {
        let rest = cards_in(cards.drop_last(), collection_id);
        if cards.last().collection_id == collection_id {
            rest.push(cards.last())
        } else {
            rest
        }
    }
}

/// One more card at the end is one more card of its collection, and of
/// no other.
pub proof fn lemma_cards_in_step(cards: Seq<CardView>, i: int, collection_id: i64)
    requires
        0 <= i < cards.len(),
    ensures
        cards_in(cards.take(i + 1), collection_id) == if cards[i].collection_id == collection_id {
            cards_in(cards.take(i), collection_id).push(cards[i])
        } else {
            cards_in(cards.take(i), collection_id)
        },
{
    assert(cards.take(i + 1).drop_last() =~= cards.take(i));
}

/// The cards of a collection are cards of the store, and cards of that
/// collection.
pub proof fn lemma_cards_in_members(cards: Seq<CardView>, collection_id: i64)
    ensures
        forall|m: int|
            0 <= m < cards_in(cards, collection_id).len() ==> (#[trigger] cards_in(
                cards,
                collection_id,
            )[m]).collection_id == collection_id && cards.contains(
                cards_in(cards, collection_id)[m],
            ),
        cards_in(cards, collection_id).len() <= cards.len(),
    decreases cards.len(),
{
    if cards.len() > 0 {
        lemma_cards_in_members(cards.drop_last(), collection_id);
        let rest = cards_in(cards.drop_last(), collection_id);
        let all = cards_in(cards, collection_id);
        assert forall|m: int| 0 <= m < all.len() implies (#[trigger] all[m]).collection_id
            == collection_id && cards.contains(all[m]) by {
            if m < rest.len() {
                assert(all[m] == rest[m]);
                assert(cards.drop_last().contains(rest[m]));
                let w = choose|w: int|
                    0 <= w < cards.drop_last().len() && cards.drop_last()[w] == rest[m];
                assert(cards[w] == rest[m]);
            } else {
                assert(all[m] == cards[cards.len() - 1]);
            }
        }
    }
}

/// A stored card as a listing shows it.
pub open spec fn listed_card(c: CardView) -> StoredCardView {
    StoredCardView {
        id: c.id,
        question: c.question,
        answer: c.answer,
        title: c.title,
        skipped: c.skipped,
        sub_collection_id: Some(c.sub_collection_id),
    }
}

/// Cards as a listing shows them.
pub open spec fn listing_of(cards: Seq<CardView>) -> Seq<StoredCardView> {
    cards.map_values(|c: CardView| listed_card(c))
}

/// The whole store as a value.
pub struct StoreView {
    pub collections: Seq<CollectionView>,
    pub sub_collections: Seq<SubCollectionView>,
    pub cards: Seq<CardView>,
    pub last_collection_id: i64,
    pub last_sub_collection_id: i64,
    pub last_card_id: i64,
}

impl StoreView {
    /// The store with no rows at all.
    pub open spec fn empty() -> StoreView {
        StoreView {
            collections: Seq::empty(),
            sub_collections: Seq::empty(),
            cards: Seq::empty(),
            last_collection_id: 0,
            last_sub_collection_id: 0,
            last_card_id: 0,
        }
    }

    /// The store as it starts: the collection "Default" with its reserved
    /// sub-collection, and no card.
    pub open spec fn fresh() -> StoreView {
        StoreView {
            collections: seq![CollectionView { id: 1, name: DEFAULT_COLLECTION_NAME@ }],
            sub_collections: seq![
                SubCollectionView { id: 1, name: sentinel(), collection_id: 1 },
            ],
            cards: Seq::empty(),
            last_collection_id: 1,
            last_sub_collection_id: 1,
            last_card_id: 0,
        }
    }

    // ----- queries -----

    /// Some collection has this id.
    pub open spec fn has_collection(self, id: i64) -> bool {
        exists|i: int| 0 <= i < self.collections.len() && (#[trigger] self.collections[i]).id == id
    }

    /// The name of the collection with this id.
    pub open spec fn collection_name(self, id: i64) -> Option<Seq<char>> {
        if self.has_collection(id) {
            let i = choose|i: int|
                0 <= i < self.collections.len() && (#[trigger] self.collections[i]).id == id;
            Some(self.collections[i].name)
        } else {
            None
        }
    }

    /// Some collection has exactly this name.
    pub open spec fn has_collection_named(self, name: Seq<char>) -> bool {
        exists|i: int|
            0 <= i < self.collections.len() && (#[trigger] self.collections[i]).name == name
    }

    /// The id of the collection with exactly this name.
    pub open spec fn collection_named(self, name: Seq<char>) -> Option<i64> {
        if self.has_collection_named(name) {
            let i = choose|i: int|
                0 <= i < self.collections.len() && (#[trigger] self.collections[i]).name == name;
            Some(self.collections[i].id)
        } else {
            None
        }
    }

    /// Collection `collection_id` has a sub-collection of exactly this name.
    pub open spec fn has_sub_named(self, collection_id: i64, name: Seq<char>) -> bool {
        exists|i: int|
            0 <= i < self.sub_collections.len() && (
            #[trigger] self.sub_collections[i]).collection_id == collection_id
                && self.sub_collections[i].name == name
    }

    /// The id of the sub-collection of `collection_id` with exactly this name.
    pub open spec fn sub_named(self, collection_id: i64, name: Seq<char>) -> Option<i64> {
        if self.has_sub_named(collection_id, name) {
            let i = choose|i: int|
                0 <= i < self.sub_collections.len() && (
                #[trigger] self.sub_collections[i]).collection_id == collection_id
                    && self.sub_collections[i].name == name;
            Some(self.sub_collections[i].id)
        } else {
            None
        }
    }

    /// Sub-collection `id` exists and belongs to collection `collection_id`.
    pub open spec fn sub_in_collection(self, id: i64, collection_id: i64) -> bool {
        exists|i: int|
            0 <= i < self.sub_collections.len() && (#[trigger] self.sub_collections[i]).id == id
                && self.sub_collections[i].collection_id == collection_id
    }

    /// The name of sub-collection `id` of collection `collection_id`.
    pub open spec fn sub_name(self, id: i64, collection_id: i64) -> Option<Seq<char>> {
        if self.sub_in_collection(id, collection_id) {
            let i = choose|i: int|
                0 <= i < self.sub_collections.len() && (#[trigger] self.sub_collections[i]).id == id
                    && self.sub_collections[i].collection_id == collection_id;
            Some(self.sub_collections[i].name)
        } else {
            None
        }
    }

    /// The id of the reserved sub-collection of `collection_id`.
    pub open spec fn null_sub_collection_id(self, collection_id: i64) -> Option<i64> {
        self.sub_named(collection_id, sentinel())
    }

    /// Some card has this id.
    pub open spec fn has_card(self, id: i64) -> bool {
        exists|i: int| 0 <= i < self.cards.len() && (#[trigger] self.cards[i]).id == id
    }

    /// Where the card with this id stands among the cards.
    pub open spec fn card_index(self, id: i64) -> int {
        choose|i: int| 0 <= i < self.cards.len() && (#[trigger] self.cards[i]).id == id
    }

    /// Some card holds this collection, sub-collection, question and answer.
    pub open spec fn has_card_key(
        self,
        collection_id: i64,
        sub_collection_id: i64,
        question: Seq<char>,
        answer: Seq<char>,
    ) -> bool {
        exists|i: int|
            0 <= i < self.cards.len() && card_has_key(
                #[trigger] self.cards[i],
                collection_id,
                sub_collection_id,
                question,
                answer,
            )
    }

    /// Some card of this collection holds this question and answer, in
    /// one of the collection's sub-collections.
    pub open spec fn has_card_in(
        self,
        collection_id: i64,
        question: Seq<char>,
        answer: Seq<char>,
    ) -> bool {
        exists|sub: i64| #[trigger]
            self.has_card_key(collection_id, sub, question, answer) && self.sub_in_collection(
                sub,
                collection_id,
            )
    }

    /// Some card other than card `id` holds this collection,
    /// sub-collection, question and answer.
    pub open spec fn has_other_card_key(
        self,
        id: i64,
        collection_id: i64,
        sub_collection_id: i64,
        question: Seq<char>,
        answer: Seq<char>,
    ) -> bool {
        exists|i: int|
            0 <= i < self.cards.len() && (#[trigger] self.cards[i]).id != id && card_has_key(
                self.cards[i],
                collection_id,
                sub_collection_id,
                question,
                answer,
            )
    }

    // ----- well-formedness -----

    /// Collections: ids ascend and stay within what was handed out, names
    /// are proper and no two are equal.
    pub open spec fn collections_wf(self) -> bool {
        &&& forall|i: int|
            0 <= i < self.collections.len() ==> (#[trigger] self.collections[i]).id
                <= self.last_collection_id && proper_name(self.collections[i].name)
        &&& forall|i: int, j: int|
            0 <= i < j < self.collections.len() ==> (#[trigger] self.collections[i]).id < (
            #[trigger] self.collections[j]).id
        &&& forall|i: int, j: int|
            0 <= i < j < self.collections.len() ==> (#[trigger] self.collections[i]).name != (
            #[trigger] self.collections[j]).name
    }

    /// Sub-collections: ids ascend and stay within what was handed out,
    /// each belongs to a collection, names are proper and no two of one
    /// collection are equal.
    pub open spec fn sub_collections_wf(self) -> bool {
        &&& forall|i: int|
            0 <= i < self.sub_collections.len() ==> {
                &&& (#[trigger] self.sub_collections[i]).id <= self.last_sub_collection_id
                &&& proper_name(self.sub_collections[i].name)
                &&& self.has_collection(self.sub_collections[i].collection_id)
            }
        &&& forall|i: int, j: int|
            0 <= i < j < self.sub_collections.len() ==> (#[trigger] self.sub_collections[i]).id < (
            #[trigger] self.sub_collections[j]).id
        &&& forall|i: int, j: int|
            0 <= i < j < self.sub_collections.len() ==> !((
            #[trigger] self.sub_collections[i]).collection_id == (
            #[trigger] self.sub_collections[j]).collection_id && self.sub_collections[i].name
                == self.sub_collections[j].name)
    }

    /// Every collection owns its reserved sub-collection.
    pub open spec fn sentinels_wf(self) -> bool {
        forall|i: int|
            0 <= i < self.collections.len() ==> self.has_sub_named(
                (#[trigger] self.collections[i]).id,
                sentinel(),
            )
    }

    /// Cards: ids ascend and stay within what was handed out, each sits in
    /// a sub-collection of its own collection, and no two hold the same
    /// collection, sub-collection, question and answer.
    pub open spec fn cards_wf(self) -> bool {
        &&& forall|i: int|
            0 <= i < self.cards.len() ==> {
                &&& (#[trigger] self.cards[i]).id <= self.last_card_id
                &&& self.sub_in_collection(
                    self.cards[i].sub_collection_id,
                    self.cards[i].collection_id,
                )
            }
        &&& forall|i: int, j: int|
            0 <= i < j < self.cards.len() ==> (#[trigger] self.cards[i]).id < (
            #[trigger] self.cards[j]).id
        &&& forall|i: int, j: int|
            0 <= i < j < self.cards.len() ==> !same_key(
                #[trigger] self.cards[i],
                #[trigger] self.cards[j],
            )
    }

    /// The invariant of the store.
    pub open spec fn wf(self) -> bool {
        &&& self.collections_wf()
        &&& self.sub_collections_wf()
        &&& self.sentinels_wf()
        &&& self.cards_wf()
    }

    // ----- listings -----

    /// `r` lists every collection once, ordered by name.
    pub open spec fn is_collection_listing(self, r: Seq<CollectionView>) -> bool {
        &&& forall|i: int, j: int|
            0 <= i < j < r.len() ==> str_less((#[trigger] r[i]).name, (#[trigger] r[j]).name)
        &&& forall|i: int| 0 <= i < r.len() ==> self.collections.contains(#[trigger] r[i])
        &&& forall|i: int|
            0 <= i < self.collections.len() ==> r.contains(#[trigger] self.collections[i])
    }

    /// `r` lists every sub-collection of `collection_id` but the reserved
    /// one, each once, ordered by name.
    pub open spec fn is_sub_collection_listing(
        self,
        collection_id: i64,
        r: Seq<SubCollectionView>,
    ) -> bool {
        &&& forall|i: int, j: int|
            0 <= i < j < r.len() ==> str_less((#[trigger] r[i]).name, (#[trigger] r[j]).name)
        &&& forall|i: int|
            0 <= i < r.len() ==> {
                &&& self.sub_collections.contains(#[trigger] r[i])
                &&& r[i].collection_id == collection_id
                &&& r[i].name != sentinel()
            }
        &&& forall|i: int|
            0 <= i < self.sub_collections.len() && (
            #[trigger] self.sub_collections[i]).collection_id == collection_id
                && self.sub_collections[i].name != sentinel() ==> r.contains(
                self.sub_collections[i],
            )
    }

    /// The cards of `collection_id` as a listing shows them, by ascending id.
    pub open spec fn card_listing(self, collection_id: i64) -> Seq<StoredCardView> {
        listing_of(cards_in(self.cards, collection_id))
    }

    // ----- updates -----

    /// This store with one more collection.
    pub open spec fn push_collection(self, name: Seq<char>) -> StoreView {
        StoreView {
            collections: self.collections.push(
                CollectionView { id: (self.last_collection_id + 1) as i64, name },
            ),
            last_collection_id: (self.last_collection_id + 1) as i64,
            ..self
        }
    }

    /// This store with one more sub-collection.
    pub open spec fn push_sub_collection(self, collection_id: i64, name: Seq<char>) -> StoreView {
        StoreView {
            sub_collections: self.sub_collections.push(
                SubCollectionView {
                    id: (self.last_sub_collection_id + 1) as i64,
                    name,
                    collection_id,
                },
            ),
            last_sub_collection_id: (self.last_sub_collection_id + 1) as i64,
            ..self
        }
    }

    /// This store with one more card, not skipped.
    pub open spec fn push_card(
        self,
        collection_id: i64,
        sub_collection_id: i64,
        question: Seq<char>,
        answer: Seq<char>,
        title: Seq<char>,
    ) -> StoreView {
        StoreView {
            cards: self.cards.push(
                CardView {
                    id: (self.last_card_id + 1) as i64,
                    question,
                    answer,
                    title,
                    skipped: false,
                    collection_id,
                    sub_collection_id,
                },
            ),
            last_card_id: (self.last_card_id + 1) as i64,
            ..self
        }
    }

    /// What an operation that is undone when it fails makes of this
    /// store: what it made of it where it succeeded, this store and the
    /// failure otherwise.
    pub open spec fn or_unchanged<T>(self, r: (StoreView, Result<T, StoreError>)) -> (
        StoreView,
        Result<T, StoreError>,
    ) {
        if r.1 is Ok {
            r
        } else {
            (self, r.1)
        }
    }

    /// Makes sure the collection named "Default" is there, with its
    /// reserved sub-collection.
    pub open spec fn init_db(self) -> (StoreView, Result<(), StoreError>) {
        if self.has_collection_named(DEFAULT_COLLECTION_NAME@) {
            (self, Ok(()))
        } else if self.last_collection_id == i64::MAX || self.last_sub_collection_id == i64::MAX {
            (self, Err(StoreError::StoreFull))
        } else {
            (self.with_new_collection(DEFAULT_COLLECTION_NAME@), Ok(()))
        }
    }

    /// This store with one more collection and the reserved sub-collection
    /// that goes with it.
    pub open spec fn with_new_collection(self, name: Seq<char>) -> StoreView {
        self.push_collection(name).push_sub_collection(
            (self.last_collection_id + 1) as i64,
            sentinel(),
        )
    }

    /// Creates a collection under the trimmed name, together with its
    /// reserved sub-collection.
    pub open spec fn create_collection(self, name: Seq<char>) -> (
        StoreView,
        Result<CollectionView, StoreError>,
    ) {
        let n = trimmed(name);
        if n.len() == 0 {
            (self, Err(StoreError::InvalidName(Named::Collection)))
        } else if self.has_collection_named(n) {
            (self, Err(StoreError::NameTaken))
        } else if self.last_collection_id == i64::MAX || self.last_sub_collection_id == i64::MAX {
            (self, Err(StoreError::StoreFull))
        } else {
            (
                self.with_new_collection(n),
                Ok(CollectionView { id: (self.last_collection_id + 1) as i64, name: n }),
            )
        }
    }

    /// Creates a sub-collection of `collection_id` under the trimmed name.
    pub open spec fn create_sub_collection(self, collection_id: i64, name: Seq<char>) -> (
        StoreView,
        Result<SubCollectionView, StoreError>,
    ) {
        let n = trimmed(name);
        if n.len() == 0 {
            (self, Err(StoreError::InvalidName(Named::SubCollection)))
        } else if eq_ignoring_ascii_case(n, sentinel()) {
            (self, Err(StoreError::ReservedName))
        } else if !self.has_collection(collection_id) {
            (self, Err(StoreError::NotFound))
        } else if self.has_sub_named(collection_id, n) {
            (self, Err(StoreError::NameTaken))
        } else if self.last_sub_collection_id == i64::MAX {
            (self, Err(StoreError::StoreFull))
        } else {
            (
                self.push_sub_collection(collection_id, n),
                Ok(
                    SubCollectionView {
                        id: (self.last_sub_collection_id + 1) as i64,
                        name: n,
                        collection_id,
                    },
                ),
            )
        }
    }

    /// Looks the trimmed name up among the sub-collections of
    /// `collection_id`, and creates it if it is not there.
    pub open spec fn get_or_create_sub_collection(self, collection_id: i64, name: Seq<char>) -> (
        StoreView,
        Result<i64, StoreError>,
    ) {
        let n = trimmed(name);
        if n.len() == 0 {
            (self, Err(StoreError::InvalidName(Named::SubCollection)))
        } else if self.has_sub_named(collection_id, n) {
            (self, Ok(self.sub_named(collection_id, n).unwrap()))
        } else if !self.has_collection(collection_id) {
            (self, Err(StoreError::NotFound))
        } else if self.last_sub_collection_id == i64::MAX {
            (self, Err(StoreError::StoreFull))
        } else {
            (
                self.push_sub_collection(collection_id, n),
                Ok((self.last_sub_collection_id + 1) as i64),
            )
        }
    }

    /// The sub-collection a card goes to: the one given, else the reserved
    /// one of the collection; none if that is no sub-collection of the
    /// collection.
    pub open spec fn resolve_sub_collection(
        self,
        collection_id: i64,
        sub_collection_id: Option<i64>,
    ) -> Option<i64> {
        let sub = match sub_collection_id {
            Some(id) => Some(id),
            None => self.null_sub_collection_id(collection_id),
        };
        if sub is Some && self.sub_in_collection(sub.unwrap(), collection_id) {
            sub
        } else {
            None
        }
    }

    /// Inserts a card into a sub-collection of a collection.
    pub open spec fn insert_card(
        self,
        collection_id: i64,
        sub_collection_id: i64,
        question: Seq<char>,
        answer: Seq<char>,
        title: Seq<char>,
    ) -> (StoreView, Result<(), StoreError>) {
        if !self.sub_in_collection(sub_collection_id, collection_id) {
            (self, Err(StoreError::NotFound))
        } else if self.has_card_key(collection_id, sub_collection_id, question, answer) {
            (self, Err(StoreError::DuplicateCard))
        } else if self.last_card_id == i64::MAX {
            (self, Err(StoreError::StoreFull))
        } else {
            (self.push_card(collection_id, sub_collection_id, question, answer, title), Ok(()))
        }
    }

    /// Adds a card.
    pub open spec fn add_card(
        self,
        question: Seq<char>,
        answer: Seq<char>,
        collection_id: i64,
        title: Option<Seq<char>>,
        sub_collection_id: Option<i64>,
    ) -> (StoreView, Result<(), StoreError>) {
        match self.resolve_sub_collection(collection_id, sub_collection_id) {
            Some(sub) => self.insert_card(
                collection_id,
                sub,
                question,
                answer,
                title_or_empty(title),
            ),
            None => (self, Err(StoreError::NotFound)),
        }
    }

    /// Rewrites the card with this id, if there is one; its skipped flag
    /// stays.
    pub open spec fn update_card(
        self,
        id: i64,
        question: Seq<char>,
        answer: Seq<char>,
        collection_id: i64,
        title: Option<Seq<char>>,
        sub_collection_id: Option<i64>,
    ) -> (StoreView, Result<(), StoreError>) {
        match self.resolve_sub_collection(collection_id, sub_collection_id) {
            None => (self, Err(StoreError::NotFound)),
            Some(sub) => {
                if !self.has_card(id) {
                    (self, Ok(()))
                } else if self.has_other_card_key(id, collection_id, sub, question, answer) {
                    (self, Err(StoreError::DuplicateCard))
                } else {
                    let i = self.card_index(id);
                    (
                        StoreView {
                            cards: self.cards.update(
                                i,
                                CardView {
                                    id,
                                    question,
                                    answer,
                                    title: title_or_empty(title),
                                    skipped: self.cards[i].skipped,
                                    collection_id,
                                    sub_collection_id: sub,
                                },
                            ),
                            ..self
                        },
                        Ok(()),
                    )
                }
            },
        }
    }

    /// Removes the card with this id, if there is one.
    pub open spec fn delete_card(self, id: i64) -> StoreView {
        if self.has_card(id) {
            StoreView { cards: self.cards.remove(self.card_index(id)), ..self }
        } else {
            self
        }
    }

    /// Sets the skipped flag of the card with this id, if there is one.
    pub open spec fn set_card_skipped(self, id: i64, skipped: bool) -> StoreView {
        if self.has_card(id) {
            let i = self.card_index(id);
            StoreView {
                cards: self.cards.update(i, CardView { skipped, ..self.cards[i] }),
                ..self
            }
        } else {
            self
        }
    }

    /// Clears the skipped flag of every card of `collection_id`.
    pub open spec fn clear_skipped_for_collection(self, collection_id: i64) -> StoreView {
        StoreView {
            cards: Seq::new(
                self.cards.len(),
                |i: int|
                    if self.cards[i].collection_id == collection_id {
                        CardView { skipped: false, ..self.cards[i] }
                    } else {
                        self.cards[i]
                    },
            ),
            ..self
        }
    }
}

/// The card holds this collection, sub-collection, question and answer.
pub open spec fn card_has_key(
    c: CardView,
    collection_id: i64,
    sub_collection_id: i64,
    question: Seq<char>,
    answer: Seq<char>,
) -> bool {
    &&& c.collection_id == collection_id
    &&& c.sub_collection_id == sub_collection_id
    &&& c.question == question
    &&& c.answer == answer
}

/// Two cards hold the same collection, sub-collection, question and answer.
pub open spec fn same_key(a: CardView, b: CardView) -> bool {
    card_has_key(a, b.collection_id, b.sub_collection_id, b.question, b.answer)
}

} // verus!
