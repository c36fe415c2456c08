//! Export: one collection, or all of them, as a portable document.

use vstd::prelude::*;
use crate::model::{
    CardView, ExportCard, ExportCardView, ExportCollection, ExportCollectionView, ExportData,
    ExportSubCollection, StoreError, StoredSubCollection,
};
use crate::state::{cards_in, lemma_cards_in_members, listed_card, sentinel, StoreView};
use crate::store::CardStore;
use crate::text::str_less;

verus! {

impl StoreView {
    /// The name under which a card's sub-collection is exported: none for
    /// the reserved sub-collection, and none for a sub-collection that is
    /// not one of the card's collection.
    pub open spec fn exported_sub_name(self, c: CardView) -> Option<Seq<char>> {
        match self.sub_name(c.sub_collection_id, c.collection_id) {
            Some(n) => if n == sentinel() {
                None
            } else {
                Some(n)
            },
            None => None,
        }
    }

    /// A card as an export document carries it.
    pub open spec fn exported_card(self, c: CardView) -> ExportCardView {
        ExportCardView {
            question: c.question,
            answer: c.answer,
            title: c.title,
            sub_collection_name: self.exported_sub_name(c),
        }
    }

    /// The cards of `collection_id` as an export document carries them, by
    /// ascending id.
    pub open spec fn exported_cards(self, collection_id: i64) -> Seq<ExportCardView> {
        cards_in(self.cards, collection_id).map_values(|c: CardView| self.exported_card(c))
    }

    /// `e` is the export of collection `collection_id`: its name, the
    /// names of its sub-collections but the reserved one in ascending
    /// order, and its cards by ascending id.
    pub open spec fn is_export_of(self, collection_id: i64, e: ExportCollectionView) -> bool {
        &&& self.collection_name(collection_id) == Some(e.name)
        &&& forall|i: int, j: int|
            0 <= i < j < e.sub_collections.len() ==> str_less(
                #[trigger] e.sub_collections[i],
                #[trigger] e.sub_collections[j],
            )
        &&& forall|n: Seq<char>| #[trigger]
            e.sub_collections.contains(n) <==> n != sentinel() && self.has_sub_named(
                collection_id,
                n,
            )
        &&& e.cards == self.exported_cards(collection_id)
    }

    /// `d` is the export of the whole store: one entry for each
    /// collection, in ascending order of the names.
    pub open spec fn is_export(self, d: Seq<ExportCollectionView>) -> bool {
        &&& d.len() == self.collections.len()
        &&& forall|i: int, j: int|
            0 <= i < j < d.len() ==> str_less((#[trigger] d[i]).name, (#[trigger] d[j]).name)
        &&& forall|i: int|
            0 <= i < d.len() ==> self.has_collection_named((#[trigger] d[i]).name)
                && self.is_export_of(self.collection_named(d[i].name).unwrap(), d[i])
    }
}

/// The name of the row of `subs` with this id.
fn name_by_id(subs: &Vec<StoredSubCollection>, id: i64) -> (r: Option<String>)
    ensures
        match r {
            Some(n) => exists|i: int|
                0 <= i < subs.len() && (#[trigger] subs[i]).id == id && subs[i].name@ == n@,
            None => forall|i: int| 0 <= i < subs.len() ==> (#[trigger] subs[i]).id != id,
        },
{
    let mut i: usize = 0;
    while i < subs.len()
        invariant
            i <= subs.len(),
            forall|k: int| 0 <= k < i ==> (#[trigger] subs[k]).id != id,
        decreases subs.len() - i,
    {
        if subs[i].id == id {
            return Some(subs[i].name.clone());
        }
        i += 1;
    }
    None
}

impl CardStore {
    /// One collection as an entry of an export document.
    fn export_entry(&self, collection_id: i64, name: String) -> (e: ExportCollection)
        requires
            self.wf(),
            self@.collection_name(collection_id) == Some(name@),
        ensures
            self@.is_export_of(collection_id, e@),
    {
        let subs = self.get_sub_collections(collection_id);
        let ghost listing = subs.deep_view();
        let mut sub_collections: Vec<ExportSubCollection> = Vec::new();
        let mut i: usize = 0;
        while i < subs.len()
            invariant
                i <= subs.len(),
                sub_collections.len() == i,
                forall|k: int| 0 <= k < i ==> (#[trigger] sub_collections[k])@ == subs[k].name@,
            decreases subs.len() - i,
        {
            sub_collections.push(ExportSubCollection { name: subs[i].name.clone() });
            i += 1;
        }
        let stored = self.get_cards(collection_id);
        let ghost rows = cards_in(self@.cards, collection_id);
        proof {
            lemma_cards_in_members(self@.cards, collection_id);
            assert(stored.deep_view().len() == rows.len());
        }
        let mut cards: Vec<ExportCard> = Vec::new();
        let mut k: usize = 0;
        while k < stored.len()
            invariant
                self.wf(),
                k <= stored.len(),
                cards.len() == k,
                stored.len() == rows.len(),
                listing == subs.deep_view(),
                self@.is_sub_collection_listing(collection_id, listing),
                rows == cards_in(self@.cards, collection_id),
                stored.deep_view() == self@.card_listing(collection_id),
                forall|m: int|
                    0 <= m < rows.len() ==> (#[trigger] rows[m]).collection_id == collection_id,
                forall|m: int|
                    0 <= m < k ==> (#[trigger] cards[m])@ == self@.exported_card(rows[m]),
            decreases stored.len() - k,
        {
            let c = &stored[k];
            let ghost row = rows[k as int];
            assert(stored.deep_view()[k as int] == listed_card(row));
            assert(c@ == listed_card(row));
            let sub_collection_name = match c.sub_collection_id {
                Some(id) => name_by_id(&subs, id),
                None => None,
            };
            proof {
                let id = row.sub_collection_id;
                assert(row.collection_id == collection_id);
                if sub_collection_name is Some {
                    let w = choose|w: int|
                        0 <= w < subs.len() && (#[trigger] subs[w]).id == id && subs[w].name@
                            == sub_collection_name.unwrap()@;
                    assert(listing[w] == subs[w]@);
                    assert(self@.sub_collections.contains(listing[w]));
                    let x = choose|x: int|
                        0 <= x < self@.sub_collections.len() && self@.sub_collections[x]
                            == listing[w];
                    crate::invariants::lemma_sub_collection_at(self@, x);
                } else if self@.sub_in_collection(id, collection_id) {
                    let x = choose|x: int|
                        0 <= x < self@.sub_collections.len() && (
                        #[trigger] self@.sub_collections[x]).id == id
                            && self@.sub_collections[x].collection_id == collection_id;
                    crate::invariants::lemma_sub_collection_at(self@, x);
                    if self@.sub_collections[x].name != sentinel() {
                        assert(listing.contains(self@.sub_collections[x]));
                        let w = choose|w: int|
                            0 <= w < listing.len() && listing[w] == self@.sub_collections[x];
                        assert(listing[w] == subs[w]@);
                        assert(subs[w].id == id);
                    }
                }
            }
            cards.push(
                ExportCard {
                    question: c.question.clone(),
                    answer: c.answer.clone(),
                    title: c.title.clone(),
                    sub_collection_name,
                },
            );
            k += 1;
        }
        let e = ExportCollection { name, sub_collections, cards };
        proof {
            let v = e@;
            assert(v.cards =~= self@.exported_cards(collection_id));
            assert forall|a: int, b: int| 0 <= a < b < v.sub_collections.len() implies str_less(
                #[trigger] v.sub_collections[a],
                #[trigger] v.sub_collections[b],
            ) by {
                assert(v.sub_collections[a] == listing[a].name);
                assert(v.sub_collections[b] == listing[b].name);
            }
            assert forall|n: Seq<char>| #[trigger]
                v.sub_collections.contains(n) <==> n != sentinel() && self@.has_sub_named(
                    collection_id,
                    n,
                ) by {
                if v.sub_collections.contains(n) {
                    let a = choose|a: int|
                        0 <= a < v.sub_collections.len() && v.sub_collections[a] == n;
                    assert(listing[a].name == n);
                    assert(self@.sub_collections.contains(listing[a]));
                    let x = choose|x: int|
                        0 <= x < self@.sub_collections.len() && self@.sub_collections[x]
                            == listing[a];
                    assert(self@.sub_collections[x].collection_id == collection_id);
                }
                if n != sentinel() && self@.has_sub_named(collection_id, n) {
                    let x = choose|x: int|
                        0 <= x < self@.sub_collections.len() && (
                        #[trigger] self@.sub_collections[x]).collection_id == collection_id
                            && self@.sub_collections[x].name == n;
                    assert(listing.contains(self@.sub_collections[x]));
                    let a = choose|a: int|
                        0 <= a < listing.len() && listing[a] == self@.sub_collections[x];
                    assert(v.sub_collections[a] == n);
                }
            }
        }
        e
    }

    /// The export document of one collection: its name, its
    /// sub-collections by name without the reserved one, and its cards by
    /// ascending id, each with the name of its sub-collection unless that
    /// is the reserved one. Fails with `NotFound` if there is no such
    /// collection.
    pub fn export_collection(&self, collection_id: i64) -> (r: Result<ExportData, StoreError>)
        requires
            self.wf(),
        ensures
            r is Ok <==> self@.has_collection(collection_id),
            r matches Ok(d) ==> d@.len() == 1 && self@.is_export_of(collection_id, d@[0]),
            r matches Err(e) ==> e == StoreError::NotFound,
    {
        match self.collection_name(collection_id) {
            Some(name) => {
                let entry = self.export_entry(collection_id, name);
                let mut collections: Vec<ExportCollection> = Vec::new();
                collections.push(entry);
                Ok(ExportData { collections })
            },
            None => Err(StoreError::NotFound),
        }
    }

    /// The export document of the whole store: every collection, ordered
    /// by name, each as `export_collection` gives it.
    pub fn export_collections(&self) -> (d: ExportData)
        requires
            self.wf(),
        ensures
            self@.is_export(d@),
    {
        let listing = self.get_collections();
        let mut collections: Vec<ExportCollection> = Vec::new();
        let mut i: usize = 0;
        while i < listing.len()
            invariant
                self.wf(),
                i <= listing.len(),
                collections.len() == i,
                self@.is_collection_listing(listing.deep_view()),
                forall|k: int|
                    0 <= k < i ==> (#[trigger] collections[k])@.name == listing[k].name@
                        && self@.is_export_of(listing[k].id, collections[k]@),
            decreases listing.len() - i,
        {
            let c = &listing[i];
            proof {
                assert(listing.deep_view()[i as int] == c@);
                assert(self@.collections.contains(listing.deep_view()[i as int]));
                let x = choose|x: int|
                    0 <= x < self@.collections.len() && self@.collections[x] == c@;
                crate::invariants::lemma_collection_at(self@, x);
            }
            let entry = self.export_entry(c.id, c.name.clone());
            collections.push(entry);
            i += 1;
        }
        let d = ExportData { collections };
        proof {
            let v = d@;
            let l = listing.deep_view();
            assert forall|a: int, b: int| 0 <= a < b < v.len() implies str_less(
                (#[trigger] v[a]).name,
                (#[trigger] v[b]).name,
            ) by {
                assert(v[a].name == l[a].name && v[b].name == l[b].name);
            }
            assert forall|a: int| 0 <= a < v.len() implies self@.has_collection_named(
                (#[trigger] v[a]).name,
            ) && self@.is_export_of(self@.collection_named(v[a].name).unwrap(), v[a]) by {
                assert(self@.collections.contains(l[a]));
                let x = choose|x: int|
                    0 <= x < self@.collections.len() && self@.collections[x] == l[a];
                crate::invariants::lemma_collection_at(self@, x);
                assert(d.collections[a]@ == v[a]);
            }
        }
        d
    }
}

} // verus!
