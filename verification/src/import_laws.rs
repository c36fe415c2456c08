//! What an import leaves behind, and what a second import of the same
//! document finds.

use vstd::prelude::*;
use crate::growth::{
    lemma_create_collection, lemma_get_or_create_sub_collection, lemma_grown_card_key,
    lemma_grown_collection_named, lemma_grown_sub_named, lemma_grows_chain, lemma_insert_card,
};
use crate::import::{lists_sub_collection, ImportCount};
use crate::invariants::{lemma_collection_at, lemma_same_tables};
use crate::model::{ExportCardView, ExportCollectionView, StoreError};
use crate::state::{sentinel, StoreView};
use crate::text::{lemma_trimmed_idempotent, trimmed};

verus! {

/// A sub-collection found by name is a sub-collection of its collection,
/// and is found by its id under that name.
pub proof fn lemma_named_sub_valid(s: StoreView, collection_id: i64, name: Seq<char>)
    requires
        s.sub_collections_wf(),
        s.has_sub_named(collection_id, name),
    ensures
        s.sub_in_collection(s.sub_named(collection_id, name).unwrap(), collection_id),
        s.sub_name(s.sub_named(collection_id, name).unwrap(), collection_id) == Some(name),
{
}

/// A list of names lists what its first entry is once trimmed, and what
/// the rest of it lists.
pub proof fn lemma_lists_first_or_rest(subs: Seq<Seq<char>>, name: Seq<char>)
    requires
        subs.len() > 0,
    ensures
        lists_sub_collection(subs, name) <==> trimmed(subs[0]) == name || lists_sub_collection(
            subs.drop_first(),
            name,
        ),
{
    let rest = subs.drop_first();
    if lists_sub_collection(subs, name) {
        let k = choose|k: int| 0 <= k < subs.len() && trimmed(#[trigger] subs[k]) == name;
        if k > 0 {
            assert(trimmed(rest[k - 1]) == name);
        }
    }
    if lists_sub_collection(rest, name) {
        let k = choose|k: int| 0 <= k < rest.len() && trimmed(#[trigger] rest[k]) == name;
        assert(trimmed(subs[k + 1]) == name);
    }
    if trimmed(subs[0]) == name {
        assert(lists_sub_collection(subs, name));
    }
}

/// The first phase of an import keeps the store well formed, only makes
/// it grow, and touches nothing but sub-collections; where it succeeds,
/// the destination has gained exactly the listed names that are not blank.
pub proof fn lemma_import_sub_collections(s: StoreView, dest: i64, subs: Seq<Seq<char>>)
    requires
        s.wf(),
    ensures
        ({
            let r = s.import_sub_collections(dest, subs);
            &&& r.0.wf()
            &&& s.grows_to(r.0)
            &&& r.0.cards == s.cards
            &&& r.0.collections == s.collections
            &&& r.0.last_collection_id == s.last_collection_id
            &&& r.0.last_card_id == s.last_card_id
            &&& r.1 is Ok ==> forall|c: i64, n: Seq<char>| #[trigger]
                r.0.has_sub_named(c, n) <==> s.has_sub_named(c, n) || (c == dest && n.len() > 0
                    && lists_sub_collection(subs, n))
        }),
    decreases subs.len(),
{
    let r = s.import_sub_collections(dest, subs);
    if subs.len() == 0 {
    } else {
        let n0 = trimmed(subs[0]);
        let rest = subs.drop_first();
        if n0.len() == 0 {
            lemma_import_sub_collections(s, dest, rest);
            if r.1 is Ok {
                assert forall|c: i64, n: Seq<char>| #[trigger]
                    r.0.has_sub_named(c, n) <==> s.has_sub_named(c, n) || (c == dest && n.len() > 0
                        && lists_sub_collection(subs, n)) by {
                    lemma_lists_first_or_rest(subs, n);
                }
            }
        } else {
            lemma_trimmed_idempotent(subs[0]);
            lemma_get_or_create_sub_collection(s, dest, n0);
            let step = s.get_or_create_sub_collection(dest, n0);
            if step.1 is Ok {
                lemma_import_sub_collections(step.0, dest, rest);
                lemma_grows_chain(s, step.0, r.0);
                if r.1 is Ok {
                    assert forall|c: i64, n: Seq<char>| #[trigger]
                        r.0.has_sub_named(c, n) <==> s.has_sub_named(c, n) || (c == dest && n.len()
                            > 0 && lists_sub_collection(subs, n)) by {
                        lemma_lists_first_or_rest(subs, n);
                        assert(step.0.has_sub_named(c, n) <==> s.has_sub_named(c, n) || (c == dest
                            && n == n0));
                    }
                }
            }
        }
    }
}

/// Where the destination has every listed name already, the first phase
/// of an import changes nothing.
pub proof fn lemma_import_sub_collections_again(s: StoreView, dest: i64, subs: Seq<Seq<char>>)
    requires
        forall|k: int|
            0 <= k < subs.len() && trimmed(#[trigger] subs[k]).len() > 0 ==> s.has_sub_named(
                dest,
                trimmed(subs[k]),
            ),
    ensures
        s.import_sub_collections(dest, subs) == (s, Ok::<(), StoreError>(())),
    decreases subs.len(),
{
    if subs.len() > 0 {
        let rest = subs.drop_first();
        assert forall|k: int|
            0 <= k < rest.len() && trimmed(#[trigger] rest[k]).len() > 0 implies s.has_sub_named(
            dest,
            trimmed(rest[k]),
        ) by {
            assert(rest[k] == subs[k + 1]);
        }
        lemma_import_sub_collections_again(s, dest, rest);
        let n0 = trimmed(subs[0]);
        if n0.len() > 0 {
            lemma_trimmed_idempotent(subs[0]);
            assert(s.has_sub_named(dest, n0));
        }
    }
}

/// An imported card goes to a sub-collection of the destination.
pub proof fn lemma_import_target_valid(
    s: StoreView,
    dest: i64,
    subs: Seq<Seq<char>>,
    null_sub: i64,
    name: Option<Seq<char>>,
)
    requires
        s.sub_collections_wf(),
        s.sub_in_collection(null_sub, dest),
    ensures
        s.sub_in_collection(s.import_target(dest, subs, null_sub, name), dest),
{
}

/// The second phase of an import keeps the store well formed, only makes
/// it grow, and touches nothing but cards; where it succeeds, it has
/// counted at most one for each card, and every card of the document is
/// stored in the sub-collection it goes to.
pub proof fn lemma_import_cards(
    s: StoreView,
    dest: i64,
    subs: Seq<Seq<char>>,
    null_sub: i64,
    cards: Seq<ExportCardView>,
    added: nat,
)
    requires
        s.wf(),
    ensures
        ({
            let r = s.import_cards(dest, subs, null_sub, cards, added);
            &&& r.0.wf()
            &&& s.grows_to(r.0)
            &&& r.0.collections == s.collections
            &&& r.0.sub_collections == s.sub_collections
            &&& r.0.last_collection_id == s.last_collection_id
            &&& r.0.last_sub_collection_id == s.last_sub_collection_id
            &&& r.1 matches Ok(n) ==> {
                &&& added <= n <= added + cards.len()
                &&& forall|k: int|
                    0 <= k < cards.len() ==> r.0.has_card_key(
                        dest,
                        s.import_target(
                            dest,
                            subs,
                            null_sub,
                            (#[trigger] cards[k]).sub_collection_name,
                        ),
                        cards[k].question,
                        cards[k].answer,
                    )
            }
        }),
    decreases cards.len(),
{
    let r = s.import_cards(dest, subs, null_sub, cards, added);
    if cards.len() > 0 {
        let c = cards[0];
        let rest = cards.drop_first();
        let target = s.import_target(dest, subs, null_sub, c.sub_collection_name);
        let step = s.insert_card(
            dest,
            target,
            c.question,
            c.answer,
            c.title,
        );
        lemma_insert_card(
            s,
            dest,
            target,
            c.question,
            c.answer,
            c.title,
        );
        lemma_same_tables(s, step.0);
        if step.1 is Ok || step.1 == Err::<(), StoreError>(StoreError::DuplicateCard) {
            let next = if step.1 is Ok {
                added + 1
            } else {
                added
            };
            lemma_import_cards(step.0, dest, subs, null_sub, rest, next as nat);
            lemma_grows_chain(s, step.0, r.0);
            if r.1 is Ok {
                assert forall|k: int| 0 <= k < cards.len() implies r.0.has_card_key(
                    dest,
                    s.import_target(
                        dest,
                        subs,
                        null_sub,
                        (#[trigger] cards[k]).sub_collection_name,
                    ),
                    cards[k].question,
                    cards[k].answer,
                ) by {
                    if k == 0 {
                        lemma_grown_card_key(
                            step.0,
                            r.0,
                            dest,
                            target,
                            c.question,
                            c.answer,
                        );
                    } else {
                        assert(rest[k - 1] == cards[k]);
                    }
                }
            }
        }
    }
}

/// Where every card of the document is stored in the sub-collection it
/// goes to, the second phase of an import changes nothing and counts
/// nothing.
pub proof fn lemma_import_cards_again(
    s: StoreView,
    dest: i64,
    subs: Seq<Seq<char>>,
    null_sub: i64,
    cards: Seq<ExportCardView>,
    added: nat,
)
    requires
        s.sub_collections_wf(),
        s.sub_in_collection(null_sub, dest),
        forall|k: int|
            0 <= k < cards.len() ==> s.has_card_key(
                dest,
                s.import_target(dest, subs, null_sub, (#[trigger] cards[k]).sub_collection_name),
                cards[k].question,
                cards[k].answer,
            ),
    ensures
        s.import_cards(dest, subs, null_sub, cards, added) == (s, Ok::<nat, StoreError>(added)),
    decreases cards.len(),
{
    if cards.len() > 0 {
        let rest = cards.drop_first();
        assert forall|k: int| 0 <= k < rest.len() implies s.has_card_key(
            dest,
            s.import_target(dest, subs, null_sub, (#[trigger] rest[k]).sub_collection_name),
            rest[k].question,
            rest[k].answer,
        ) by {
            assert(rest[k] == cards[k + 1]);
        }
        lemma_import_cards_again(s, dest, subs, null_sub, rest, added);
        lemma_import_target_valid(s, dest, subs, null_sub, cards[0].sub_collection_name);
    }
}

/// Importing one collection of a document keeps the store well formed,
/// only makes it grow, and creates no collection; where it succeeds, it
/// has counted at most one for each card, and every card of the document
/// is stored in the destination.
pub proof fn lemma_import_into(s: StoreView, dest: i64, file: ExportCollectionView)
    requires
        s.wf(),
    ensures
        ({
            let r = s.import_into(dest, file);
            &&& r.0.wf()
            &&& s.grows_to(r.0)
            &&& r.0.collections == s.collections
            &&& r.0.last_collection_id == s.last_collection_id
            &&& r.1 matches Ok(n) ==> {
                &&& n <= file.cards.len()
                &&& s.has_collection(dest)
                &&& forall|k: int|
                    0 <= k < file.cards.len() ==> r.0.has_card_in(
                        dest,
                        (#[trigger] file.cards[k]).question,
                        file.cards[k].answer,
                    )
            }
        }),
{
    let r = s.import_into(dest, file);
    match s.null_sub_collection_id(dest) {
        None => {},
        Some(null_sub) => {
            lemma_named_sub_valid(s, dest, sentinel());
            let i = choose|i: int|
                0 <= i < s.sub_collections.len() && (#[trigger] s.sub_collections[i]).collection_id
                    == dest && s.sub_collections[i].name == sentinel();
            assert(s.has_collection(s.sub_collections[i].collection_id));
            let first = s.import_sub_collections(dest, file.sub_collections);
            lemma_import_sub_collections(s, dest, file.sub_collections);
            if first.1 is Ok {
                lemma_import_cards(first.0, dest, file.sub_collections, null_sub, file.cards, 0);
                lemma_grows_chain(s, first.0, r.0);
                if r.1 is Ok {
                    crate::growth::lemma_grown_sub(s, first.0, null_sub, dest);
                    assert forall|k: int| 0 <= k < file.cards.len() implies r.0.has_card_in(
                        dest,
                        (#[trigger] file.cards[k]).question,
                        file.cards[k].answer,
                    ) by {
                        let target = first.0.import_target(
                            dest,
                            file.sub_collections,
                            null_sub,
                            file.cards[k].sub_collection_name,
                        );
                        assert(r.0.has_card_key(
                            dest,
                            target,
                            file.cards[k].question,
                            file.cards[k].answer,
                        ));
                    }
                }
            }
        },
    }
}

impl StoreView {
    /// Collection `dest` holds everything of `file` already: a
    /// sub-collection for each name the document lists, and each card in
    /// the sub-collection it goes to.
    #[verifier::opaque]
    pub open spec fn holds_import(self, dest: i64, file: ExportCollectionView) -> bool {
        &&& self.null_sub_collection_id(dest) is Some
        &&& forall|k: int|
            0 <= k < file.sub_collections.len() && trimmed(#[trigger] file.sub_collections[k]).len()
                > 0 ==> self.has_sub_named(dest, trimmed(file.sub_collections[k]))
        &&& forall|k: int|
            0 <= k < file.cards.len() ==> self.has_card_key(
                dest,
                self.import_target(
                    dest,
                    file.sub_collections,
                    self.null_sub_collection_id(dest).unwrap(),
                    (#[trigger] file.cards[k]).sub_collection_name,
                ),
                file.cards[k].question,
                file.cards[k].answer,
            )
    }
}

/// After a collection of a document was imported into a collection, the
/// collection holds everything of it.
pub proof fn lemma_import_is_held(s: StoreView, dest: i64, file: ExportCollectionView)
    requires
        s.wf(),
        s.import_into(dest, file).1 is Ok,
    ensures
        s.import_into(dest, file).0.holds_import(dest, file),
{
    reveal(StoreView::holds_import);
    let subs = file.sub_collections;
    let null_sub = s.null_sub_collection_id(dest).unwrap();
    let first = s.import_sub_collections(dest, subs);
    let t = s.import_into(dest, file).0;
    lemma_named_sub_valid(s, dest, sentinel());
    lemma_import_sub_collections(s, dest, subs);
    lemma_import_cards(first.0, dest, subs, null_sub, file.cards, 0);
    lemma_same_tables(first.0, t);
    lemma_grown_sub_named(s, first.0, dest, sentinel());
    assert(t.null_sub_collection_id(dest) == Some(null_sub));
    assert forall|k: int|
        0 <= k < subs.len() && trimmed(#[trigger] subs[k]).len() > 0 implies t.has_sub_named(
        dest,
        trimmed(subs[k]),
    ) by {
        assert(lists_sub_collection(subs, trimmed(subs[k])));
        assert(first.0.has_sub_named(dest, trimmed(subs[k])));
    }
    assert forall|k: int| 0 <= k < file.cards.len() implies t.has_card_key(
        dest,
        t.import_target(dest, subs, null_sub, (#[trigger] file.cards[k]).sub_collection_name),
        file.cards[k].question,
        file.cards[k].answer,
    ) by {
        assert(t.import_target(dest, subs, null_sub, file.cards[k].sub_collection_name)
            == first.0.import_target(dest, subs, null_sub, file.cards[k].sub_collection_name));
    }
}

/// Importing a collection of a document into a collection that holds
/// everything of it inserts no card, raises no error and changes nothing.
pub proof fn lemma_import_of_what_is_held(s: StoreView, dest: i64, file: ExportCollectionView)
    requires
        s.sub_collections_wf(),
        s.holds_import(dest, file),
    ensures
        s.import_into(dest, file) == (s, Ok::<nat, StoreError>(0)),
{
    reveal(StoreView::holds_import);
    let null_sub = s.null_sub_collection_id(dest).unwrap();
    lemma_named_sub_valid(s, dest, sentinel());
    lemma_import_sub_collections_again(s, dest, file.sub_collections);
    lemma_import_cards_again(s, dest, file.sub_collections, null_sub, file.cards, 0);
}

/// What a collection holds of a document it still holds in every
/// well-formed store that the store grows to.
pub proof fn lemma_grown_holds_import(
    s: StoreView,
    t: StoreView,
    dest: i64,
    file: ExportCollectionView,
)
    requires
        s.grows_to(t),
        s.sub_collections_wf(),
        t.sub_collections_wf(),
        s.holds_import(dest, file),
    ensures
        t.holds_import(dest, file),
{
    reveal(StoreView::holds_import);
    let subs = file.sub_collections;
    let null_sub = s.null_sub_collection_id(dest).unwrap();
    lemma_grown_sub_named(s, t, dest, sentinel());
    assert forall|k: int|
        0 <= k < subs.len() && trimmed(#[trigger] subs[k]).len() > 0 implies t.has_sub_named(
        dest,
        trimmed(subs[k]),
    ) by {
        lemma_grown_sub_named(s, t, dest, trimmed(subs[k]));
    }
    assert forall|k: int| 0 <= k < file.cards.len() implies t.has_card_key(
        dest,
        t.import_target(dest, subs, null_sub, (#[trigger] file.cards[k]).sub_collection_name),
        file.cards[k].question,
        file.cards[k].answer,
    ) by {
        let name = file.cards[k].sub_collection_name;
        let target = s.import_target(dest, subs, null_sub, name);
        if name is Some {
            let n = trimmed(name.unwrap());
            if n.len() > 0 && (n == sentinel() || lists_sub_collection(subs, n)) {
                if lists_sub_collection(subs, n) {
                    let w = choose|w: int| 0 <= w < subs.len() && trimmed(#[trigger] subs[w]) == n;
                    assert(s.has_sub_named(dest, trimmed(subs[w])));
                }
                lemma_grown_sub_named(s, t, dest, n);
            }
        }
        assert(t.import_target(dest, subs, null_sub, name) == target);
        lemma_grown_card_key(
            s,
            t,
            dest,
            target,
            file.cards[k].question,
            file.cards[k].answer,
        );
    }
}

/// Importing the same collection of a document into the same collection a
/// second time inserts no card, raises no error and leaves the store as
/// the first import left it.
pub proof fn law_import_twice_adds_nothing(s: StoreView, dest: i64, file: ExportCollectionView)
    requires
        s.wf(),
        s.import_into(dest, file).1 is Ok,
    ensures
        s.import_into(dest, file).0.import_into(dest, file) == (
            s.import_into(dest, file).0,
            Ok::<nat, StoreError>(0),
        ),
{
    lemma_import_into(s, dest, file);
    lemma_import_is_held(s, dest, file);
    lemma_import_of_what_is_held(s.import_into(dest, file).0, dest, file);
}

/// The same, said of the import of a collection of a document by its index
/// into a collection that is there: a second run reports no card added,
/// raises no error and leaves the store as the first run left it.
pub proof fn law_import_collection_twice_adds_nothing(
    s: StoreView,
    data: Seq<ExportCollectionView>,
    index: u32,
    dest: i64,
    blank: Option<Seq<char>>,
)
    requires
        s.wf(),
        blank matches Some(n) ==> trimmed(n).len() == 0,
        s.import_collection(data, index, Some(dest), blank).1 is Ok,
    ensures
        s.import_collection(data, index, Some(dest), blank).0.import_collection(
            data,
            index,
            Some(dest),
            blank,
        ) == (s.import_collection(data, index, Some(dest), blank).0, Ok::<nat, StoreError>(0)),
{
    law_import_twice_adds_nothing(s, dest, data[index as int]);
}

/// Importing a collection of a document by its index keeps the store well
/// formed and only makes it grow.
pub proof fn lemma_import_collection(
    s: StoreView,
    data: Seq<ExportCollectionView>,
    index: u32,
    dest_id: Option<i64>,
    dest_new_name: Option<Seq<char>>,
)
    requires
        s.wf(),
    ensures
        s.import_collection(data, index, dest_id, dest_new_name).0.wf(),
        s.grows_to(s.import_collection(data, index, dest_id, dest_new_name).0),
{
    let r = s.import_collection(data, index, dest_id, dest_new_name);
    let new_name = match dest_new_name {
        Some(n) => trimmed(n),
        None => Seq::empty(),
    };
    if index < data.len() {
        match dest_id {
            Some(id) => {
                lemma_import_into(s, id, data[index as int]);
            },
            None => {
                if new_name.len() > 0 {
                    let made = s.create_collection(new_name);
                    lemma_create_collection(s, new_name);
                    if made.1 is Ok {
                        lemma_import_into(made.0, made.1.unwrap().id, data[index as int]);
                        lemma_grows_chain(s, made.0, r.0);
                    }
                }
            },
        }
    }
}

/// Finding the collection of a name, or making it, keeps the store well
/// formed and only makes it grow; a collection that is there is found and
/// nothing changes, and one that was made is found by its name afterwards.
pub proof fn lemma_collection_for(s: StoreView, name: Seq<char>)
    requires
        s.wf(),
    ensures
        ({
            let r = s.collection_for(name);
            &&& r.0.wf()
            &&& s.grows_to(r.0)
            &&& r.0.cards == s.cards
            &&& s.has_collection_named(name) ==> r == (s, Ok::<i64, StoreError>(
                s.collection_named(name).unwrap(),
            ))
            &&& r.1 matches Ok(id) ==> r.0.has_collection(id) && (trimmed(name) == name
                ==> r.0.collection_named(name) == Some(id))
        }),
{
    let r = s.collection_for(name);
    if s.has_collection_named(name) {
        let i = choose|i: int|
            0 <= i < s.collections.len() && (#[trigger] s.collections[i]).name == name;
        lemma_collection_at(s, i);
    } else {
        lemma_create_collection(s, name);
    }
}

/// Importing every collection of a document keeps the store well formed
/// and only makes it grow; where it succeeds, it has counted at most one
/// for each collection.
pub proof fn lemma_import_collections(
    s: StoreView,
    data: Seq<ExportCollectionView>,
    count: ImportCount,
)
    requires
        s.wf(),
    ensures
        ({
            let r = s.import_collections(data, count);
            &&& r.0.wf()
            &&& s.grows_to(r.0)
            &&& r.1 matches Ok(c) ==> count.collections <= c.collections <= count.collections
                + data.len() && count.cards_added <= c.cards_added
        }),
    decreases data.len(),
{
    let r = s.import_collections(data, count);
    if data.len() > 0 {
        let name = trimmed(data[0].name);
        let rest = data.drop_first();
        if name.len() == 0 {
            lemma_import_collections(s, rest, count);
        } else {
            let found = s.collection_for(name);
            lemma_collection_for(s, name);
            if found.1 is Ok {
                let done = found.0.import_into(found.1.unwrap(), data[0]);
                lemma_import_into(found.0, found.1.unwrap(), data[0]);
                lemma_grows_chain(s, found.0, done.0);
                if done.1 is Ok {
                    let next = ImportCount {
                        collections: count.collections + 1,
                        cards_added: count.cards_added + done.1.unwrap(),
                    };
                    lemma_import_collections(done.0, rest, next);
                    lemma_grows_chain(s, done.0, r.0);
                }
            }
        }
    }
}

/// A collection of a document whose trimmed name a collection of the
/// store has is merged into that collection: afterwards the name still
/// belongs to that collection and to no other, and every card of the
/// document's collection is stored in it.
pub proof fn law_import_merges_by_name(
    s: StoreView,
    data: Seq<ExportCollectionView>,
    count: ImportCount,
    k: int,
)
    requires
        s.wf(),
        s.import_collections(data, count).1 is Ok,
        0 <= k < data.len(),
        s.has_collection_named(trimmed(data[k].name)),
    ensures
        ({
            let t = s.import_collections(data, count).0;
            let name = trimmed(data[k].name);
            let id = s.collection_named(name).unwrap();
            &&& t.collection_named(name) == Some(id)
            &&& forall|i: int, j: int|
                0 <= i < t.collections.len() && 0 <= j < t.collections.len() && (
                #[trigger] t.collections[i]).name == name && (#[trigger] t.collections[j]).name
                    == name ==> i == j
            &&& forall|j: int|
                0 <= j < data[k].cards.len() ==> t.has_card_in(
                    id,
                    (#[trigger] data[k].cards[j]).question,
                    data[k].cards[j].answer,
                )
        }),
    decreases data.len(),
{
    let t = s.import_collections(data, count).0;
    let name = trimmed(data[k].name);
    let id = s.collection_named(name).unwrap();
    let name0 = trimmed(data[0].name);
    let rest = data.drop_first();
    lemma_import_collections(s, data, count);
    lemma_grown_collection_named(s, t, name);
    assert forall|i: int, j: int|
        0 <= i < t.collections.len() && 0 <= j < t.collections.len() && (
        #[trigger] t.collections[i]).name == name && (#[trigger] t.collections[j]).name
            == name implies i == j by {
        if i < j {
            assert(t.collections[i].name != t.collections[j].name);
        } else if j < i {
            assert(t.collections[j].name != t.collections[i].name);
        }
    }
    let w = choose|w: int|
        0 <= w < s.collections.len() && (#[trigger] s.collections[w]).name == name;
    assert(name.len() > 0);
    if name0.len() == 0 {
        assert(rest[k - 1] == data[k]);
        law_import_merges_by_name(s, rest, count, k - 1);
    } else {
        let found = s.collection_for(name0);
        lemma_collection_for(s, name0);
        let id0 = found.1.unwrap();
        let done = found.0.import_into(id0, data[0]);
        lemma_import_into(found.0, id0, data[0]);
        lemma_grows_chain(s, found.0, done.0);
        let next = ImportCount {
            collections: count.collections + 1,
            cards_added: count.cards_added + done.1.unwrap(),
        };
        lemma_import_collections(done.0, rest, next);
        if k == 0 {
            assert forall|j: int| 0 <= j < data[k].cards.len() implies t.has_card_in(
                id,
                (#[trigger] data[k].cards[j]).question,
                data[k].cards[j].answer,
            ) by {
                let q = data[k].cards[j].question;
                let a = data[k].cards[j].answer;
                assert(done.0.has_card_in(id, q, a));
                let sub = choose|sub: i64| #[trigger]
                    done.0.has_card_key(id, sub, q, a) && done.0.sub_in_collection(sub, id);
                lemma_grown_card_key(done.0, t, id, sub, q, a);
                crate::growth::lemma_grown_sub(done.0, t, sub, id);
            }
        } else {
            assert(rest[k - 1] == data[k]);
            lemma_grown_collection_named(s, done.0, name);
            law_import_merges_by_name(done.0, rest, next, k - 1);
        }
    }
}

/// Where every collection of a document has a blank name or the name of a
/// collection of the store, importing the document creates no collection.
pub proof fn law_import_of_known_names_creates_no_collection(
    s: StoreView,
    data: Seq<ExportCollectionView>,
    count: ImportCount,
)
    requires
        s.wf(),
        forall|k: int|
            0 <= k < data.len() ==> trimmed((#[trigger] data[k]).name).len() == 0
                || s.has_collection_named(trimmed(data[k].name)),
    ensures
        s.import_collections(data, count).0.collections == s.collections,
    decreases data.len(),
{
    if data.len() > 0 {
        let name0 = trimmed(data[0].name);
        let rest = data.drop_first();
        assert forall|k: int| 0 <= k < rest.len() implies trimmed((#[trigger] rest[k]).name).len()
            == 0 || s.has_collection_named(trimmed(rest[k].name)) by {
            assert(rest[k] == data[k + 1]);
        }
        if name0.len() == 0 {
            law_import_of_known_names_creates_no_collection(s, rest, count);
        } else {
            assert(s.has_collection_named(trimmed(data[0].name)));
            lemma_collection_for(s, name0);
            let id0 = s.collection_named(name0).unwrap();
            let done = s.import_into(id0, data[0]);
            lemma_import_into(s, id0, data[0]);
            if done.1 is Ok {
                let next = ImportCount {
                    collections: count.collections + 1,
                    cards_added: count.cards_added + done.1.unwrap(),
                };
                lemma_same_collections_named(s, done.0);
                law_import_of_known_names_creates_no_collection(done.0, rest, next);
            }
        }
    }
}

/// Stores with the same collections have the same collection names.
pub proof fn lemma_same_collections_named(s: StoreView, t: StoreView)
    requires
        t.collections == s.collections,
    ensures
        forall|name: Seq<char>| #[trigger]
            t.has_collection_named(name) == s.has_collection_named(name),
{
}

/// The number of collections of a document whose name is not blank.
pub open spec fn named_collections(data: Seq<ExportCollectionView>) -> nat
    decreases data.len(),
{
    if data.len() == 0 {
        0
    } else {
        named_collections(data.drop_first()) + if trimmed(data[0].name).len() > 0 {
            1nat
        } else {
            0nat
        }
    }
}

impl StoreView {
    /// The store holds everything of the document: for each collection of
    /// the document whose name is not blank, the collection of that name
    /// holds everything of it.
    pub open spec fn holds_imports(self, data: Seq<ExportCollectionView>) -> bool {
        forall|k: int|
            0 <= k < data.len() && trimmed((#[trigger] data[k]).name).len() > 0 ==> {
                &&& self.has_collection_named(trimmed(data[k].name))
                &&& self.holds_import(
                    self.collection_named(trimmed(data[k].name)).unwrap(),
                    data[k],
                )
            }
    }
}

/// After a document was imported, the store holds everything of it.
pub proof fn lemma_imports_are_held(
    s: StoreView,
    data: Seq<ExportCollectionView>,
    count: ImportCount,
)
    requires
        s.wf(),
        s.import_collections(data, count).1 is Ok,
    ensures
        s.import_collections(data, count).0.holds_imports(data),
    decreases data.len(),
{
    let t = s.import_collections(data, count).0;
    if data.len() > 0 {
        let name0 = trimmed(data[0].name);
        let rest = data.drop_first();
        lemma_import_collections(s, data, count);
        if name0.len() == 0 {
            lemma_imports_are_held(s, rest, count);
            assert forall|k: int|
                0 <= k < data.len() && trimmed((#[trigger] data[k]).name).len() > 0 implies {
                &&& t.has_collection_named(trimmed(data[k].name))
                &&& t.holds_import(t.collection_named(trimmed(data[k].name)).unwrap(), data[k])
            } by {
                assert(rest[k - 1] == data[k]);
            }
        } else {
            lemma_trimmed_idempotent(data[0].name);
            let found = s.collection_for(name0);
            lemma_collection_for(s, name0);
            let id0 = found.1.unwrap();
            let done = found.0.import_into(id0, data[0]);
            lemma_import_into(found.0, id0, data[0]);
            lemma_import_is_held(found.0, id0, data[0]);
            let next = ImportCount {
                collections: count.collections + 1,
                cards_added: count.cards_added + done.1.unwrap(),
            };
            lemma_import_collections(done.0, rest, next);
            lemma_imports_are_held(done.0, rest, next);
            lemma_same_collections(found.0, done.0);
            assert(done.0.collection_named(name0) == Some(id0));
            lemma_grown_collection_named(done.0, t, name0);
            lemma_grown_holds_import(done.0, t, id0, data[0]);
            assert forall|k: int|
                0 <= k < data.len() && trimmed((#[trigger] data[k]).name).len() > 0 implies {
                &&& t.has_collection_named(trimmed(data[k].name))
                &&& t.holds_import(t.collection_named(trimmed(data[k].name)).unwrap(), data[k])
            } by {
                if k > 0 {
                    assert(rest[k - 1] == data[k]);
                }
            }
        }
    }
}

/// Importing a document into a store that holds everything of it creates
/// no collection, inserts no card, raises no error and changes nothing; it
/// counts the collections whose name is not blank.
pub proof fn lemma_import_of_what_is_held_by_all(
    s: StoreView,
    data: Seq<ExportCollectionView>,
    count: ImportCount,
)
    requires
        s.wf(),
        s.holds_imports(data),
    ensures
        s.import_collections(data, count) == (
            s,
            Ok::<ImportCount, StoreError>(
                ImportCount {
                    collections: count.collections + named_collections(data),
                    cards_added: count.cards_added,
                },
            ),
        ),
    decreases data.len(),
{
    if data.len() > 0 {
        let name0 = trimmed(data[0].name);
        let rest = data.drop_first();
        assert forall|k: int|
            0 <= k < rest.len() && trimmed((#[trigger] rest[k]).name).len() > 0 implies {
            &&& s.has_collection_named(trimmed(rest[k].name))
            &&& s.holds_import(s.collection_named(trimmed(rest[k].name)).unwrap(), rest[k])
        } by {
            assert(rest[k] == data[k + 1]);
        }
        if name0.len() == 0 {
            lemma_import_of_what_is_held_by_all(s, rest, count);
        } else {
            assert(s.has_collection_named(trimmed(data[0].name)));
            lemma_collection_for(s, name0);
            let id0 = s.collection_named(name0).unwrap();
            lemma_import_of_what_is_held(s, id0, data[0]);
            let next = ImportCount {
                collections: count.collections + 1,
                cards_added: count.cards_added + 0,
            };
            lemma_import_of_what_is_held_by_all(s, rest, next);
        }
    }
}

/// Importing the same document a second time creates no collection,
/// inserts no card, raises no error and leaves the store as the first
/// import left it.
pub proof fn law_import_collections_twice_adds_nothing(
    s: StoreView,
    data: Seq<ExportCollectionView>,
)
    requires
        s.wf(),
        s.import_collections(data, ImportCount { collections: 0, cards_added: 0 }).1 is Ok,
    ensures
        ({
            let none = ImportCount { collections: 0, cards_added: 0 };
            let t = s.import_collections(data, none).0;
            t.import_collections(data, none) == (
                t,
                Ok::<ImportCount, StoreError>(
                    ImportCount { collections: named_collections(data), cards_added: 0 },
                ),
            )
        }),
{
    let none = ImportCount { collections: 0, cards_added: 0 };
    lemma_import_collections(s, data, none);
    lemma_imports_are_held(s, data, none);
    lemma_import_of_what_is_held_by_all(s.import_collections(data, none).0, data, none);
}

/// After a document was imported, every collection of it whose name is not
/// blank has a collection of its trimmed name in the store, and the store
/// is well formed: that name belongs to one collection only, and every
/// collection, the new ones too, has its one reserved sub-collection.
pub proof fn law_import_makes_each_named_collection(
    s: StoreView,
    data: Seq<ExportCollectionView>,
    k: int,
)
    requires
        s.wf(),
        s.import_collections(data, ImportCount { collections: 0, cards_added: 0 }).1 is Ok,
        0 <= k < data.len(),
        trimmed(data[k].name).len() > 0,
    ensures
        ({
            let t = s.import_collections(data, ImportCount { collections: 0, cards_added: 0 }).0;
            let name = trimmed(data[k].name);
            &&& t.wf()
            &&& s.grows_to(t)
            &&& t.has_collection_named(name)
            &&& t.has_collection(t.collection_named(name).unwrap())
            &&& t.null_sub_collection_id(t.collection_named(name).unwrap()) is Some
        }),
{
    let none = ImportCount { collections: 0, cards_added: 0 };
    let t = s.import_collections(data, none).0;
    let name = trimmed(data[k].name);
    lemma_import_collections(s, data, none);
    lemma_imports_are_held(s, data, none);
    assert(t.has_collection_named(trimmed(data[k].name)));
    let i = choose|i: int|
        0 <= i < t.collections.len() && (#[trigger] t.collections[i]).name == name;
    lemma_collection_at(t, i);
    assert(t.has_sub_named(t.collections[i].id, sentinel()));
}

/// Stores with the same collections find the same collections.
pub proof fn lemma_same_collections(s: StoreView, t: StoreView)
    requires
        t.collections == s.collections,
    ensures
        forall|name: Seq<char>| #[trigger] t.collection_named(name) == s.collection_named(name),
        forall|id: i64| #[trigger] t.has_collection(id) == s.has_collection(id),
{
}

} // verus!
