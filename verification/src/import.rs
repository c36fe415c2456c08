//! Import: reconciling an export document with what the store holds,
//! without duplicating a sub-collection or a card.

use vstd::prelude::*;
use crate::growth::{
    lemma_create_collection, lemma_get_or_create_sub_collection, lemma_insert_card,
};
use crate::import_laws::{lemma_collection_for, lemma_import_into};
use crate::model::{
    ExportCardView, ExportCollection, ExportCollectionView, ExportData, FileCollectionSummary,
    ImportResult, StoreError,
};
use crate::state::{sentinel, StoreView, NULL_SUB_COLLECTION_NAME};
use crate::store::CardStore;
use crate::text::{holds_name, trim, trimmed};

verus! {

/// Some entry of `subs` is `name` once trimmed.
pub open spec fn lists_sub_collection(subs: Seq<Seq<char>>, name: Seq<char>) -> bool {
    exists|k: int| 0 <= k < subs.len() && trimmed(#[trigger] subs[k]) == name
}

/// The number of cards in the collections of a document.
pub open spec fn total_cards(data: Seq<ExportCollectionView>) -> nat
    decreases data.len(),
{
    if data.len() == 0 {
        0
    } else {
        data[0].cards.len() + total_cards(data.drop_first())
    }
}

/// The counts of an import, before they are fitted into machine integers.
pub struct ImportCount {
    pub collections: nat,
    pub cards_added: nat,
}

impl StoreView {
    /// Makes sure that the destination has a sub-collection for each name
    /// that `subs` lists, in their order; blank names are passed over. The
    /// first failure stops it.
    pub open spec fn import_sub_collections(self, dest: i64, subs: Seq<Seq<char>>) -> (
        StoreView,
        Result<(), StoreError>,
    )
        decreases subs.len(),
    {
        if subs.len() == 0 {
            (self, Ok(()))
        } else {
            let n = trimmed(subs[0]);
            if n.len() == 0 {
                self.import_sub_collections(dest, subs.drop_first())
            } else {
                let step = self.get_or_create_sub_collection(dest, n);
                match step.1 {
                    Ok(_) => step.0.import_sub_collections(dest, subs.drop_first()),
                    Err(e) => (step.0, Err(e)),
                }
            }
        }
    }

    /// The sub-collection of the destination that an imported card goes
    /// to: the one of its trimmed name, if the document lists that name or
    /// it is the reserved name; the reserved sub-collection otherwise.
    pub open spec fn import_target(
        self,
        dest: i64,
        subs: Seq<Seq<char>>,
        null_sub: i64,
        name: Option<Seq<char>>,
    ) -> i64 {
        match name {
            Some(raw) => {
                let n = trimmed(raw);
                if n.len() > 0 && (n == sentinel() || lists_sub_collection(subs, n))
                    && self.has_sub_named(dest, n) {
                    self.sub_named(dest, n).unwrap()
                } else {
                    null_sub
                }
            },
            None => null_sub,
        }
    }

    /// Inserts the cards in their order, each with question, answer and
    /// title as the document gives them, passing over those that are
    /// stored already, and counts the others onto `added`. The first
    /// failure stops it.
    pub open spec fn import_cards(
        self,
        dest: i64,
        subs: Seq<Seq<char>>,
        null_sub: i64,
        cards: Seq<ExportCardView>,
        added: nat,
    ) -> (StoreView, Result<nat, StoreError>)
        decreases cards.len(),
    {
        if cards.len() == 0 {
            (self, Ok(added))
        } else {
            let c = cards[0];
            let step = self.insert_card(
                dest,
                self.import_target(dest, subs, null_sub, c.sub_collection_name),
                c.question,
                c.answer,
                c.title,
            );
            match step.1 {
                Ok(()) => step.0.import_cards(dest, subs, null_sub, cards.drop_first(), added + 1),
                Err(StoreError::DuplicateCard) => step.0.import_cards(
                    dest,
                    subs,
                    null_sub,
                    cards.drop_first(),
                    added,
                ),
                Err(e) => (step.0, Err(e)),
            }
        }
    }

    /// Imports one collection of a document into collection `dest`: first
    /// its sub-collections, then its cards. Gives the number of cards that
    /// were inserted.
    pub open spec fn import_into(self, dest: i64, file: ExportCollectionView) -> (
        StoreView,
        Result<nat, StoreError>,
    ) {
        match self.null_sub_collection_id(dest) {
            None => (self, Err(StoreError::NotFound)),
            Some(null_sub) => {
                let first = self.import_sub_collections(dest, file.sub_collections);
                match first.1 {
                    Ok(()) => first.0.import_cards(
                        dest,
                        file.sub_collections,
                        null_sub,
                        file.cards,
                        0,
                    ),
                    Err(e) => (first.0, Err(e)),
                }
            },
        }
    }

    /// Imports the collection at `index` of a document, into the
    /// collection with id `dest_id`, or into a new collection named
    /// `dest_new_name`: the caller gives the one or the other.
    pub open spec fn import_collection(
        self,
        data: Seq<ExportCollectionView>,
        index: u32,
        dest_id: Option<i64>,
        dest_new_name: Option<Seq<char>>,
    ) -> (StoreView, Result<nat, StoreError>) {
        let new_name = match dest_new_name {
            Some(n) => trimmed(n),
            None => Seq::empty(),
        };
        if index >= data.len() {
            (self, Err(StoreError::InvalidIndex))
        } else {
            match dest_id {
                Some(id) => if new_name.len() > 0 {
                    (self, Err(StoreError::InvalidDestination))
                } else {
                    self.import_into(id, data[index as int])
                },
                None => if new_name.len() == 0 {
                    (self, Err(StoreError::InvalidDestination))
                } else {
                    let made = self.create_collection(new_name);
                    match made.1 {
                        Ok(c) => made.0.import_into(c.id, data[index as int]),
                        Err(e) => (made.0, Err(e)),
                    }
                },
            }
        }
    }

    /// The collection that a collection of a document named `name`
    /// (trimmed, not empty) is imported into: the one of that name, made
    /// first if it is not there.
    pub open spec fn collection_for(self, name: Seq<char>) -> (StoreView, Result<i64, StoreError>) {
        match self.collection_named(name) {
            Some(id) => (self, Ok(id)),
            None => {
                let made = self.create_collection(name);
                match made.1 {
                    Ok(c) => (made.0, Ok(c.id)),
                    Err(e) => (made.0, Err(e)),
                }
            },
        }
    }

    /// Imports every collection of a document in their order, each into
    /// the collection of its trimmed name; those with a blank name are
    /// passed over. The counts go onto `count`. The first failure stops it.
    pub open spec fn import_collections(
        self,
        data: Seq<ExportCollectionView>,
        count: ImportCount,
    ) -> (StoreView, Result<ImportCount, StoreError>)
        decreases data.len(),
    {
        if data.len() == 0 {
            (self, Ok(count))
        } else {
            let name = trimmed(data[0].name);
            if name.len() == 0 {
                self.import_collections(data.drop_first(), count)
            } else {
                let found = self.collection_for(name);
                match found.1 {
                    Err(e) => (found.0, Err(e)),
                    Ok(id) => {
                        let done = found.0.import_into(id, data[0]);
                        match done.1 {
                            Err(e) => (done.0, Err(e)),
                            Ok(n) => done.0.import_collections(
                                data.drop_first(),
                                ImportCount {
                                    collections: count.collections + 1,
                                    cards_added: count.cards_added + n,
                                },
                            ),
                        }
                    },
                }
            }
        }
    }
}

/// The counts of a document, one entry for each of its collections, for a
/// caller to choose from.
pub open spec fn summaries(data: Seq<ExportCollectionView>) -> Seq<
    crate::model::FileCollectionSummaryView,
> {
    Seq::new(
        data.len(),
        |i: int|
            crate::model::FileCollectionSummaryView {
                name: data[i].name,
                card_count: data[i].cards.len() as u32,
                sub_collection_count: data[i].sub_collections.len() as u32,
            },
    )
}

/// Every collection of the document has few enough cards and
/// sub-collections for a 32-bit count.
pub open spec fn countable(data: Seq<ExportCollectionView>) -> bool {
    forall|i: int|
        0 <= i < data.len() ==> (#[trigger] data[i]).cards.len() <= u32::MAX
            && data[i].sub_collections.len() <= u32::MAX
}

/// The collections from position `i` on hold no more cards than all of
/// them.
pub proof fn lemma_total_cards_skip(data: Seq<ExportCollectionView>, i: int)
    requires
        0 <= i <= data.len(),
    ensures
        total_cards(data.skip(i)) <= total_cards(data),
        i < data.len() ==> total_cards(data.skip(i)) == data[i].cards.len() + total_cards(
            data.skip(i + 1),
        ),
    decreases i,
{
    if i < data.len() {
        assert(data.skip(i)[0] == data[i]);
        assert(data.skip(i).drop_first() =~= data.skip(i + 1));
    }
    if i > 0 {
        lemma_total_cards_skip(data, i - 1);
        assert(data.skip(i - 1)[0] == data[i - 1]);
        assert(data.skip(i - 1).drop_first() =~= data.skip(i));
    } else {
        assert(data.skip(0) =~= data);
    }
}

/// The collection at `index` of the document holds more cards than a
/// 32-bit count can tell.
pub open spec fn oversized(data: Seq<ExportCollectionView>, index: u32) -> bool {
    index < data.len() && data[index as int].cards.len() > u32::MAX
}

/// The number of the document's collections and the number of all its
/// cards fit the 32-bit counts that an import reports.
pub open spec fn fits(data: Seq<ExportCollectionView>) -> bool {
    data.len() <= u32::MAX && total_cards(data) <= u32::MAX
}

/// Whether the number of the document's collections and the number of all
/// its cards fit the 32-bit counts that an import reports.
pub fn import_fits(data: &ExportData) -> (r: bool)
    ensures
        r == fits(data@),
{
    let ghost all = data@;
    if data.collections.len() > u32::MAX as usize {
        return false;
    }
    let mut total: usize = 0;
    let mut i: usize = data.collections.len();
    proof {
        assert(all.skip(all.len() as int) =~= Seq::<ExportCollectionView>::empty());
    }
    while i > 0
        invariant
            i <= data.collections.len(),
            all == data@,
            total <= u32::MAX,
            total == total_cards(all.skip(i as int)),
        decreases i,
    {
        i -= 1;
        let c = &data.collections[i];
        proof {
            assert(all[i as int] == c@);
            lemma_total_cards_skip(all, i as int);
        }
        if c.cards.len() > u32::MAX as usize - total {
            return false;
        }
        total = total + c.cards.len();
    }
    proof {
        assert(all.skip(0) =~= all);
    }
    true
}

/// For each collection of an export document its name, the number of its
/// cards and the number of its sub-collections. Fails with `TooLarge` if
/// one of these numbers does not fit a 32-bit count. The store is not
/// touched.
pub fn read_export_file(data: &ExportData) -> (r: Result<Vec<FileCollectionSummary>, StoreError>)
    ensures
        countable(data@) ==> (r matches Ok(v) && v.deep_view() == summaries(data@)),
        !countable(data@) ==> (r matches Err(e) && e == StoreError::TooLarge),
{
    let mut out: Vec<FileCollectionSummary> = Vec::new();
    let mut i: usize = 0;
    while i < data.collections.len()
        invariant
            i <= data.collections.len(),
            out.len() == i,
            forall|k: int|
                0 <= k < i ==> (#[trigger] data@[k]).cards.len() <= u32::MAX
                    && data@[k].sub_collections.len() <= u32::MAX,
            forall|k: int| 0 <= k < i ==> (#[trigger] out[k])@ == summaries(data@)[k],
        decreases data.collections.len() - i,
    {
        let c = &data.collections[i];
        assert(data@[i as int] == c@);
        if c.cards.len() > u32::MAX as usize || c.sub_collections.len() > u32::MAX as usize {
            return Err(StoreError::TooLarge);
        }
        let card_count = c.cards.len() as u32;
        let sub_collection_count = c.sub_collections.len() as u32;
        out.push(FileCollectionSummary { name: c.name.clone(), card_count, sub_collection_count });
        i += 1;
    }
    assert(out.deep_view() =~= summaries(data@));
    Ok(out)
}

impl CardStore {
    /// The sub-collection of `dest` that an imported card goes to.
    /// `mapped` holds the trimmed names of the document's sub-collections.
    fn import_target(
        &self,
        dest: i64,
        mapped: &Vec<String>,
        null_sub: i64,
        name: &Option<String>,
        Ghost(subs): Ghost<Seq<Seq<char>>>,
    ) -> (r: i64)
        requires
            self.wf(),
            mapped.len() == subs.len(),
            forall|k: int| 0 <= k < subs.len() ==> (#[trigger] mapped[k])@ == trimmed(subs[k]),
        ensures
            r == self@.import_target(dest, subs, null_sub, name.deep_view()),
    {
        match name {
            None => null_sub,
            Some(raw) => {
                let n = trim(raw.as_str()).to_owned();
                if n.as_str().is_empty() {
                    return null_sub;
                }
                let reserved = NULL_SUB_COLLECTION_NAME.to_owned();
                let listed = n == reserved || holds_name(mapped, &n);
                proof {
                    if lists_sub_collection(subs, n@) {
                        let k = choose|k: int|
                            0 <= k < subs.len() && trimmed(#[trigger] subs[k]) == n@;
                        assert(mapped[k]@ == n@);
                    }
                    if exists|k: int| 0 <= k < mapped.len() && (#[trigger] mapped[k])@ == n@ {
                        let k = choose|k: int|
                            0 <= k < mapped.len() && (#[trigger] mapped[k])@ == n@;
                        assert(trimmed(subs[k]) == n@);
                    }
                }
                if !listed {
                    return null_sub;
                }
                match self.sub_collection_named(dest, &n) {
                    Some(id) => id,
                    None => null_sub,
                }
            },
        }
    }

    /// Imports one collection of a document into collection `dest`: makes
    /// sure that `dest` has a sub-collection for each name the document
    /// lists, then inserts the cards, with question, answer and title as
    /// the document gives them, each into the sub-collection of its name
    /// (the reserved one without a listed name), passing over those that
    /// are stored already. Returns the
    /// number of cards inserted. Fails with `TooLarge` if the document's
    /// collection holds more cards than a 32-bit count can tell, with
    /// `NotFound` if there is no collection `dest`, and with `StoreFull`
    /// where the ids run out; the store is then as it was before.
    #[verifier::loop_isolation(false)]
    pub fn import_into(&mut self, dest: i64, file: &ExportCollection) -> (r: Result<
        u32,
        StoreError,
    >)
        requires
            old(self).wf(),
        ensures
            final(self).wf(),
            file@.cards.len() > u32::MAX ==> final(self)@ == old(self)@ && r == Err::<
                u32,
                StoreError,
            >(StoreError::TooLarge),
            file@.cards.len() <= u32::MAX ==> final(self)@ == old(self)@.or_unchanged(
                old(self)@.import_into(dest, file@),
            ).0 && match r {
                Ok(n) => old(self)@.import_into(dest, file@).1 == Ok::<nat, StoreError>(n as nat)
                    && n <= file@.cards.len(),
                Err(e) => old(self)@.import_into(dest, file@).1 == Err::<nat, StoreError>(e),
            },
    {
        if file.cards.len() > u32::MAX as usize {
            return Err(StoreError::TooLarge);
        }
        let null_sub = match self.get_null_sub_collection_id(dest) {
            Ok(id) => id,
            Err(_) => {
                return Err(StoreError::NotFound);
            },
        };
        let ghost subs = file@.sub_collections;
        let ghost start = self@;
        let before = self.savepoint();
        let mut mapped: Vec<String> = Vec::new();
        let mut i: usize = 0;
        assert(subs.skip(0) =~= subs);
        while i < file.sub_collections.len()
            invariant
                self.wf(),
                i <= file.sub_collections.len(),
                subs == file@.sub_collections,
                mapped.len() == i,
                forall|k: int| 0 <= k < i ==> (#[trigger] mapped[k])@ == trimmed(subs[k]),
                start.grows_to(self@),
                self@.import_sub_collections(dest, subs.skip(i as int))
                    == start.import_sub_collections(dest, subs),
            decreases file.sub_collections.len() - i,
        {
            let name = trim(file.sub_collections[i].name.as_str()).to_owned();
            proof {
                assert(subs[i as int] == file.sub_collections[i as int]@);
                assert(subs.skip(i as int)[0] == subs[i as int]);
                assert(subs.skip(i as int).drop_first() =~= subs.skip(i + 1));
                lemma_get_or_create_sub_collection(self@, dest, name@);
            }
            if !name.as_str().is_empty() {
                match self.get_or_create_sub_collection(dest, name.as_str()) {
                    Ok(_) => {},
                    Err(e) => {
                        self.roll_back(&before, Ghost(start));
                        return Err(e);
                    },
                }
            }
            mapped.push(name);
            i += 1;
        }
        let ghost cards = file@.cards;
        let ghost middle = self@;
        let mut added: u32 = 0;
        let mut k: usize = 0;
        assert(cards.skip(0) =~= cards);
        assert(subs.skip(subs.len() as int) =~= Seq::<Seq<char>>::empty());
        while k < file.cards.len()
            invariant
                self.wf(),
                k <= file.cards.len(),
                added <= k,
                file@.cards.len() <= u32::MAX,
                cards == file@.cards,
                mapped.len() == subs.len(),
                forall|j: int| 0 <= j < subs.len() ==> (#[trigger] mapped[j])@ == trimmed(subs[j]),
                start.grows_to(self@),
                self@.import_cards(dest, subs, null_sub, cards.skip(k as int), added as nat)
                    == middle.import_cards(dest, subs, null_sub, cards, 0),
            decreases file.cards.len() - k,
        {
            let card = &file.cards[k];
            proof {
                assert(cards[k as int] == card@);
                assert(cards.skip(k as int)[0] == cards[k as int]);
                assert(cards.skip(k as int).drop_first() =~= cards.skip(k + 1));
            }
            let target = self.import_target(
                dest,
                &mapped,
                null_sub,
                &card.sub_collection_name,
                Ghost(subs),
            );
            let question = card.question.clone();
            let answer = card.answer.clone();
            let title = card.title.clone();
            proof {
                lemma_insert_card(self@, dest, target, question@, answer@, title@);
            }
            match self.insert_card(dest, target, question, answer, title) {
                Ok(()) => {
                    added += 1;
                },
                Err(StoreError::DuplicateCard) => {},
                Err(e) => {
                    self.roll_back(&before, Ghost(start));
                    return Err(e);
                },
            }
            k += 1;
        }
        assert(cards.skip(cards.len() as int) =~= Seq::<ExportCardView>::empty());
        Ok(added)
    }

    /// Imports the collection at `file_collection_index` of a document
    /// into an existing collection or into a new one. The caller names
    /// exactly one destination: the id of a collection, or a name for a
    /// new collection that is not blank; anything else fails with
    /// `InvalidDestination`. An index past the document fails with
    /// `InvalidIndex`, a new name that a collection has with `NameTaken`.
    /// A new collection gets its reserved sub-collection first; then the
    /// collection is imported as `import_into` does it. Returns one
    /// collection and the number of cards inserted. A collection of the
    /// document with more cards than a 32-bit count can tell fails with
    /// `TooLarge`. Where it fails, the store is as it was before.
    pub fn import_collection(
        &mut self,
        data: &ExportData,
        file_collection_index: u32,
        destination_collection_id: Option<i64>,
        destination_new_name: Option<String>,
    ) -> (r: Result<ImportResult, StoreError>)
        requires
            old(self).wf(),
        ensures
            final(self).wf(),
            oversized(data@, file_collection_index) ==> final(self)@ == old(self)@ && r == Err::<
                ImportResult,
                StoreError,
            >(StoreError::TooLarge),
            !oversized(data@, file_collection_index) ==> final(self)@ == old(self)@.or_unchanged(
                old(self)@.import_collection(
                    data@,
                    file_collection_index,
                    destination_collection_id,
                    destination_new_name.deep_view(),
                ),
            ).0 && match r {
                Ok(res) => res.collections == 1 && old(self)@.import_collection(
                    data@,
                    file_collection_index,
                    destination_collection_id,
                    destination_new_name.deep_view(),
                ).1 == Ok::<nat, StoreError>(res.cards_added as nat),
                Err(e) => old(self)@.import_collection(
                    data@,
                    file_collection_index,
                    destination_collection_id,
                    destination_new_name.deep_view(),
                ).1 == Err::<nat, StoreError>(e),
            },
    {
        if file_collection_index as usize >= data.collections.len() {
            return Err(StoreError::InvalidIndex);
        }
        let file = &data.collections[file_collection_index as usize];
        assert(data@[file_collection_index as int] == file@);
        if file.cards.len() > u32::MAX as usize {
            return Err(StoreError::TooLarge);
        }
        let ghost start = self@;
        let before = self.savepoint();
        let new_name = match destination_new_name {
            Some(n) => trim(n.as_str()).to_owned(),
            None => String::new(),
        };
        let dest = match destination_collection_id {
            Some(id) => {
                if !new_name.as_str().is_empty() {
                    return Err(StoreError::InvalidDestination);
                }
                id
            },
            None => {
                if new_name.as_str().is_empty() {
                    return Err(StoreError::InvalidDestination);
                }
                proof {
                    lemma_create_collection(self@, new_name@);
                }
                match self.create_collection(new_name) {
                    Ok(c) => c.id,
                    Err(e) => {
                        return Err(e);
                    },
                }
            },
        };
        match self.import_into(dest, file) {
            Ok(cards_added) => Ok(ImportResult { collections: 1, cards_added }),
            Err(e) => {
                self.roll_back(&before, Ghost(start));
                Err(e)
            },
        }
    }

    /// The collection that a collection of a document is imported into:
    /// the one of exactly this name, made first if it is not there.
    fn collection_for(&mut self, name: String) -> (r: Result<i64, StoreError>)
        requires
            old(self).wf(),
        ensures
            final(self).wf(),
            final(self)@ == old(self)@.collection_for(name@).0,
            r == old(self)@.collection_for(name@).1,
    {
        match self.collection_named(&name) {
            Some(id) => Ok(id),
            None => match self.create_collection(name) {
                Ok(c) => Ok(c.id),
                Err(e) => Err(e),
            },
        }
    }

    /// Imports every collection of a document, each into the collection
    /// of exactly its trimmed name, which is made first, with its reserved
    /// sub-collection, if it is not there; collections with a blank name
    /// are passed over and not counted. Each collection is imported as
    /// `import_into` does it. Returns the number of collections imported
    /// and of cards inserted. A document with more collections or cards
    /// than a 32-bit count can tell fails with `TooLarge`. The first
    /// failure stops the import and undoes it: the store is then as it was
    /// before.
    #[verifier::loop_isolation(false)]
    pub fn import_collections(&mut self, data: &ExportData) -> (r: Result<ImportResult, StoreError>)
        requires
            old(self).wf(),
        ensures
            final(self).wf(),
            !fits(data@) ==> final(self)@ == old(self)@ && r == Err::<ImportResult, StoreError>(
                StoreError::TooLarge,
            ),
            fits(data@) ==> final(self)@ == old(self)@.or_unchanged(
                old(self)@.import_collections(
                    data@,
                    ImportCount { collections: 0, cards_added: 0 },
                ),
            ).0 && match r {
                Ok(res) => old(self)@.import_collections(
                    data@,
                    ImportCount { collections: 0, cards_added: 0 },
                ).1 == Ok::<ImportCount, StoreError>(
                    ImportCount {
                        collections: res.collections as nat,
                        cards_added: res.cards_added as nat,
                    },
                ),
                Err(e) => old(self)@.import_collections(
                    data@,
                    ImportCount { collections: 0, cards_added: 0 },
                ).1 == Err::<ImportCount, StoreError>(e),
            },
    {
        if !import_fits(data) {
            return Err(StoreError::TooLarge);
        }
        let ghost start = self@;
        let ghost all = data@;
        let before = self.savepoint();
        let mut collections: u32 = 0;
        let mut cards_added: u32 = 0;
        let mut i: usize = 0;
        assert(all.skip(0) =~= all);
        while i < data.collections.len()
            invariant
                self.wf(),
                i <= data.collections.len(),
                all == data@,
                all.len() <= u32::MAX,
                total_cards(all) <= u32::MAX,
                collections <= i,
                cards_added + total_cards(all.skip(i as int)) <= total_cards(all),
                start.grows_to(self@),
                self@.import_collections(
                    all.skip(i as int),
                    ImportCount {
                        collections: collections as nat,
                        cards_added: cards_added as nat,
                    },
                ) == start.import_collections(all, ImportCount { collections: 0, cards_added: 0 }),
            decreases data.collections.len() - i,
        {
            let file = &data.collections[i];
            proof {
                assert(all[i as int] == file@);
                assert(all.skip(i as int)[0] == all[i as int]);
                assert(all.skip(i as int).drop_first() =~= all.skip(i + 1));
            }
            let name = trim(file.name.as_str()).to_owned();
            if !name.as_str().is_empty() {
                proof {
                    lemma_collection_for(self@, name@);
                    lemma_import_into(
                        self@.collection_for(name@).0,
                        self@.collection_for(name@).1.unwrap(),
                        file@,
                    );
                }
                let dest = match self.collection_for(name) {
                    Ok(id) => id,
                    Err(e) => {
                        self.roll_back(&before, Ghost(start));
                        return Err(e);
                    },
                };
                match self.import_into(dest, file) {
                    Ok(n) => {
                        collections += 1;
                        cards_added += n;
                    },
                    Err(e) => {
                        self.roll_back(&before, Ghost(start));
                        return Err(e);
                    },
                }
            }
            i += 1;
        }
        assert(all.skip(all.len() as int) =~= Seq::<ExportCollectionView>::empty());
        Ok(ImportResult { collections, cards_added })
    }
}

} // verus!
