//! Export, then import into a new collection: the copy holds the cards of
//! the source collection, in sub-collections of the same names.

use vstd::prelude::*;
use crate::growth::lemma_create_collection;
use crate::import::lists_sub_collection;
use crate::import_laws::{lemma_import_sub_collections, lemma_named_sub_valid};
use crate::invariants::{lemma_same_tables, lemma_sentinel_proper, lemma_sub_collection_at};
use crate::model::{CardView, ExportCardView, ExportCollectionView, StoreError};
use crate::state::{card_has_key, cards_in, same_key, sentinel, StoreView};
use crate::text::{lemma_trimmed_idempotent, proper_name, trimmed};

verus! {

/// The cards of a collection among two runs of cards are those among the
/// first, then those among the second.
pub proof fn lemma_cards_in_concat(a: Seq<CardView>, b: Seq<CardView>, collection_id: i64)
    ensures
        cards_in(a + b, collection_id) == cards_in(a, collection_id) + cards_in(b, collection_id),
    decreases b.len(),
{
    if b.len() == 0 {
        assert(a + b =~= a);
        assert(cards_in(a, collection_id) + cards_in(b, collection_id) =~= cards_in(
            a,
            collection_id,
        ));
    } else {
        lemma_cards_in_concat(a, b.drop_last(), collection_id);
        assert((a + b).drop_last() =~= a + b.drop_last());
        assert((a + b).last() == b.last());
        let x = cards_in(a, collection_id);
        let y = cards_in(b.drop_last(), collection_id);
        if b.last().collection_id == collection_id {
            assert((x + y).push(b.last()) =~= x + y.push(b.last()));
        }
    }
}

/// Cards of other collections hold no card of this one.
pub proof fn lemma_cards_in_none(a: Seq<CardView>, collection_id: i64)
    requires
        forall|i: int| 0 <= i < a.len() ==> (#[trigger] a[i]).collection_id != collection_id,
    ensures
        cards_in(a, collection_id) == Seq::<CardView>::empty(),
    decreases a.len(),
{
    if a.len() > 0 {
        assert forall|i: int| 0 <= i < a.drop_last().len() implies (
        #[trigger] a.drop_last()[i]).collection_id != collection_id by {
            assert(a.drop_last()[i] == a[i]);
        }
        lemma_cards_in_none(a.drop_last(), collection_id);
        assert(a.last() == a[a.len() - 1]);
    }
}

/// Cards of this collection alone are all cards of this collection.
pub proof fn lemma_cards_in_all(a: Seq<CardView>, collection_id: i64)
    requires
        forall|i: int| 0 <= i < a.len() ==> (#[trigger] a[i]).collection_id == collection_id,
    ensures
        cards_in(a, collection_id) == a,
    decreases a.len(),
{
    if a.len() > 0 {
        assert forall|i: int| 0 <= i < a.drop_last().len() implies (
        #[trigger] a.drop_last()[i]).collection_id == collection_id by {
            assert(a.drop_last()[i] == a[i]);
        }
        lemma_cards_in_all(a.drop_last(), collection_id);
        assert(a.last() == a[a.len() - 1]);
        assert(a.drop_last().push(a.last()) =~= a);
    } else {
        assert(a =~= Seq::<CardView>::empty());
    }
}

/// The cards of a collection stand in the order of their ids, and no two
/// of them hold the same key.
pub proof fn lemma_cards_in_distinct(s: StoreView, collection_id: i64)
    requires
        s.cards_wf(),
    ensures
        forall|j: int, k: int|
            0 <= j < k < cards_in(s.cards, collection_id).len() ==> !same_key(
                #[trigger] cards_in(s.cards, collection_id)[j],
                #[trigger] cards_in(s.cards, collection_id)[k],
            ),
{
    let rows = cards_in(s.cards, collection_id);
    lemma_cards_in_positions(s.cards, collection_id);
    assert forall|j: int, k: int| 0 <= j < k < rows.len() implies !same_key(
        #[trigger] rows[j],
        #[trigger] rows[k],
    ) by {
        let p = choose|p: int| 0 <= p < s.cards.len() && s.cards[p] == rows[j];
        let q = choose|q: int| 0 <= q < s.cards.len() && s.cards[q] == rows[k];
        assert(s.cards.contains(rows[j]));
        assert(s.cards.contains(rows[k]));
        assert(rows[j].id < rows[k].id);
        if p < q {
            assert(!same_key(s.cards[p], s.cards[q]));
        } else if q < p {
            assert(!same_key(s.cards[q], s.cards[p]));
        }
    }
}

/// Where the ids of cards ascend, so do the ids of the cards of one
/// collection among them, each of which is one of the cards.
pub proof fn lemma_cards_in_positions(cards: Seq<CardView>, collection_id: i64)
    requires
        forall|i: int, j: int|
            0 <= i < j < cards.len() ==> (#[trigger] cards[i]).id < (#[trigger] cards[j]).id,
    ensures
        forall|j: int, k: int|
            0 <= j < k < cards_in(cards, collection_id).len() ==> (#[trigger] cards_in(
                cards,
                collection_id,
            )[j]).id < (#[trigger] cards_in(cards, collection_id)[k]).id,
        forall|j: int|
            0 <= j < cards_in(cards, collection_id).len() ==> cards.contains(
                #[trigger] cards_in(cards, collection_id)[j],
            ),
    decreases cards.len(),
{
    if cards.len() > 0 {
        let front = cards.drop_last();
        assert forall|i: int, j: int| 0 <= i < j < front.len() implies (#[trigger] front[i]).id < (
        #[trigger] front[j]).id by {
            assert(front[i] == cards[i] && front[j] == cards[j]);
        }
        lemma_cards_in_positions(front, collection_id);
        let rest = cards_in(front, collection_id);
        let all = cards_in(cards, collection_id);
        assert forall|j: int| 0 <= j < all.len() implies cards.contains(#[trigger] all[j]) by {
            if j < rest.len() {
                assert(front.contains(rest[j]));
                let w = choose|w: int| 0 <= w < front.len() && front[w] == rest[j];
                assert(cards[w] == all[j]);
            } else {
                assert(cards[cards.len() - 1] == all[j]);
            }
        }
        assert forall|j: int, k: int| 0 <= j < k < all.len() implies (#[trigger] all[j]).id < (
        #[trigger] all[k]).id by {
            if k < rest.len() {
                assert(all[j] == rest[j] && all[k] == rest[k]);
            } else {
                assert(front.contains(rest[j]));
                let w = choose|w: int| 0 <= w < front.len() && front[w] == rest[j];
                assert(cards[w].id < cards[cards.len() - 1].id);
            }
        }
    }
}

/// In a well-formed store two sub-collections of one collection with the
/// same name are one.
pub proof fn lemma_sub_name_unique(s: StoreView, a: i64, b: i64, collection_id: i64)
    requires
        s.sub_collections_wf(),
        s.sub_in_collection(a, collection_id),
        s.sub_in_collection(b, collection_id),
        s.sub_name(a, collection_id) == s.sub_name(b, collection_id),
    ensures
        a == b,
{
    let i = choose|i: int|
        0 <= i < s.sub_collections.len() && (#[trigger] s.sub_collections[i]).id == a
            && s.sub_collections[i].collection_id == collection_id;
    let j = choose|j: int|
        0 <= j < s.sub_collections.len() && (#[trigger] s.sub_collections[j]).id == b
            && s.sub_collections[j].collection_id == collection_id;
    if i < j {
        assert(!(s.sub_collections[i].collection_id == s.sub_collections[j].collection_id
            && s.sub_collections[i].name == s.sub_collections[j].name));
    } else if j < i {
        assert(!(s.sub_collections[j].collection_id == s.sub_collections[i].collection_id
            && s.sub_collections[j].name == s.sub_collections[i].name));
    }
}

/// The card that the import of card `i` of a document inserts, where it
/// inserts one for each card before it.
pub open spec fn imported_card(
    s: StoreView,
    dest: i64,
    subs: Seq<Seq<char>>,
    null_sub: i64,
    cards: Seq<ExportCardView>,
    i: int,
) -> CardView {
    CardView {
        id: (s.last_card_id + 1 + i) as i64,
        question: cards[i].question,
        answer: cards[i].answer,
        title: cards[i].title,
        skipped: false,
        collection_id: dest,
        sub_collection_id: s.import_target(dest, subs, null_sub, cards[i].sub_collection_name),
    }
}

/// The store after the import of the first `n` cards of a document, where
/// each of them was inserted.
pub open spec fn with_imported_cards(
    s: StoreView,
    dest: i64,
    subs: Seq<Seq<char>>,
    null_sub: i64,
    cards: Seq<ExportCardView>,
    n: int,
) -> StoreView {
    StoreView {
        cards: s.cards + Seq::new(
            n as nat,
            |i: int| imported_card(s, dest, subs, null_sub, cards, i),
        ),
        last_card_id: (s.last_card_id + n) as i64,
        ..s
    }
}

/// Where the destination holds no card yet and no two cards of the
/// document would hold the same key, an import that succeeds inserts every
/// card of the document, in order.
pub proof fn lemma_import_cards_all_new(
    s: StoreView,
    dest: i64,
    subs: Seq<Seq<char>>,
    null_sub: i64,
    cards: Seq<ExportCardView>,
    k: int,
)
    requires
        s.sub_collections_wf(),
        s.sub_in_collection(null_sub, dest),
        forall|i: int| 0 <= i < s.cards.len() ==> (#[trigger] s.cards[i]).collection_id != dest,
        forall|i: int, j: int|
            0 <= i < j < cards.len() ==> !same_key(
                #[trigger] imported_card(s, dest, subs, null_sub, cards, i),
                #[trigger] imported_card(s, dest, subs, null_sub, cards, j),
            ),
        0 <= k <= cards.len(),
        s.last_card_id + k <= i64::MAX,
        with_imported_cards(s, dest, subs, null_sub, cards, k).import_cards(
            dest,
            subs,
            null_sub,
            cards.skip(k),
            k as nat,
        ).1 is Ok,
    ensures
        s.last_card_id + cards.len() <= i64::MAX,
        with_imported_cards(s, dest, subs, null_sub, cards, k).import_cards(
            dest,
            subs,
            null_sub,
            cards.skip(k),
            k as nat,
        ) == (
            with_imported_cards(s, dest, subs, null_sub, cards, cards.len() as int),
            Ok::<nat, StoreError>(cards.len()),
        ),
    decreases cards.len() - k,
{
    let u = with_imported_cards(s, dest, subs, null_sub, cards, k);
    if k < cards.len() {
        let rest = cards.skip(k);
        assert(rest[0] == cards[k]);
        assert(rest.drop_first() =~= cards.skip(k + 1));
        lemma_same_tables(s, u);
        let new = imported_card(s, dest, subs, null_sub, cards, k);
        let target = new.sub_collection_id;
        assert(u.import_target(dest, subs, null_sub, cards[k].sub_collection_name) == target);
        crate::import_laws::lemma_import_target_valid(
            s,
            dest,
            subs,
            null_sub,
            cards[k].sub_collection_name,
        );
        assert(!u.has_card_key(dest, target, new.question, new.answer)) by {
            if u.has_card_key(dest, target, new.question, new.answer) {
                let w = choose|w: int|
                    0 <= w < u.cards.len() && card_has_key(
                        #[trigger] u.cards[w],
                        dest,
                        target,
                        new.question,
                        new.answer,
                    );
                if w < s.cards.len() {
                    assert(u.cards[w] == s.cards[w]);
                } else {
                    let i = w - s.cards.len();
                    assert(u.cards[w] == imported_card(s, dest, subs, null_sub, cards, i));
                    assert(!same_key(
                        imported_card(s, dest, subs, null_sub, cards, i),
                        imported_card(s, dest, subs, null_sub, cards, k),
                    ));
                }
            }
        }
        let step = u.insert_card(dest, target, new.question, new.answer, new.title);
        assert(step.1 is Ok);
        let v = with_imported_cards(s, dest, subs, null_sub, cards, k + 1);
        assert(step.0.cards =~= v.cards);
        assert(step.0 == v);
        lemma_import_cards_all_new(s, dest, subs, null_sub, cards, k + 1);
    } else {
        assert(cards.skip(k) =~= Seq::<ExportCardView>::empty());
    }
}

/// The id that the next collection gets.
pub open spec fn next_collection_id(s: StoreView) -> i64 {
    (s.last_collection_id + 1) as i64
}

/// The store after a new collection named `new_name` was made and got a
/// sub-collection for each name that `e` lists, before any card of `e` is
/// inserted.
pub open spec fn copy_without_cards(
    s: StoreView,
    e: ExportCollectionView,
    new_name: Seq<char>,
) -> StoreView {
    s.create_collection(trimmed(new_name)).0.import_sub_collections(
        next_collection_id(s),
        e.sub_collections,
    ).0
}

/// The reserved sub-collection of the new collection.
pub open spec fn copy_null_sub(s: StoreView, new_name: Seq<char>) -> i64 {
    s.create_collection(trimmed(new_name)).0.null_sub_collection_id(
        next_collection_id(s),
    ).unwrap()
}

/// The card that the import of the export `e` into the new collection
/// makes of card `i` of `e`.
pub open spec fn copied_card(
    s: StoreView,
    e: ExportCollectionView,
    new_name: Seq<char>,
    i: int,
) -> CardView {
    imported_card(
        copy_without_cards(s, e, new_name),
        next_collection_id(s),
        e.sub_collections,
        copy_null_sub(s, new_name),
        e.cards,
        i,
    )
}

/// No two cards of the export of a collection become cards of the same
/// key in the copy.
proof fn lemma_copied_cards_differ(
    s: StoreView,
    collection_id: i64,
    e: ExportCollectionView,
    new_name: Seq<char>,
)
    requires
        s.wf(),
        s.is_export_of(collection_id, e),
        forall|i: int|
            0 <= i < e.cards.len() ==> {
                let new = #[trigger] copied_card(s, e, new_name, i);
                let row = cards_in(s.cards, collection_id)[i];
                &&& new.question == row.question
                &&& new.answer == row.answer
                &&& copy_without_cards(s, e, new_name).sub_name(
                    new.sub_collection_id,
                    next_collection_id(s),
                ) == s.sub_name(row.sub_collection_id, collection_id)
            },
    ensures
        forall|i: int, j: int|
            0 <= i < j < e.cards.len() ==> !same_key(
                #[trigger] copied_card(s, e, new_name, i),
                #[trigger] copied_card(s, e, new_name, j),
            ),
{
    let rows = cards_in(s.cards, collection_id);
    crate::state::lemma_cards_in_members(s.cards, collection_id);
    lemma_cards_in_distinct(s, collection_id);
    assert(e.cards.len() == rows.len());
    assert forall|i: int, j: int| 0 <= i < j < e.cards.len() implies !same_key(
        #[trigger] copied_card(s, e, new_name, i),
        #[trigger] copied_card(s, e, new_name, j),
    ) by {
        let a = copied_card(s, e, new_name, i);
        let b = copied_card(s, e, new_name, j);
        if same_key(a, b) {
            assert(s.cards.contains(rows[i]));
            assert(s.cards.contains(rows[j]));
            let p = choose|p: int| 0 <= p < s.cards.len() && s.cards[p] == rows[i];
            let q = choose|q: int| 0 <= q < s.cards.len() && s.cards[q] == rows[j];
            assert(s.sub_in_collection(s.cards[p].sub_collection_id, s.cards[p].collection_id));
            assert(s.sub_in_collection(s.cards[q].sub_collection_id, s.cards[q].collection_id));
            lemma_sub_name_unique(
                s,
                rows[i].sub_collection_id,
                rows[j].sub_collection_id,
                collection_id,
            );
            assert(same_key(rows[i], rows[j]));
        }
    }
}

/// What export followed by import into a new collection makes of a store:
/// the store with the new collection and its sub-collections, and after
/// its cards one card for each card of the export.
pub proof fn lemma_round_trip_shape(
    s: StoreView,
    collection_id: i64,
    e: ExportCollectionView,
    new_name: Seq<char>,
)
    requires
        s.wf(),
        s.is_export_of(collection_id, e),
        s.import_collection(seq![e], 0, None, Some(new_name)).1 is Ok,
    ensures
        ({
            let copy = next_collection_id(s);
            let made = s.create_collection(trimmed(new_name)).0;
            let s2 = copy_without_cards(s, e, new_name);
            let rows = cards_in(s.cards, collection_id);
            &&& s.import_collection(seq![e], 0, None, Some(new_name)) == (
                with_imported_cards(
                    s2,
                    copy,
                    e.sub_collections,
                    copy_null_sub(s, new_name),
                    e.cards,
                    e.cards.len() as int,
                ),
                Ok::<nat, StoreError>(e.cards.len()),
            )
            &&& e.cards.len() == rows.len()
            &&& s.has_collection(collection_id)
            &&& !s.has_collection(copy)
            &&& made.wf()
            &&& made.collection_name(copy) == Some(trimmed(new_name))
            &&& s.grows_to(made)
            &&& made.grows_to(s2)
            &&& s2.wf()
            &&& s2.cards == s.cards
            &&& s2.collections == made.collections
            &&& made.sub_collections.len() == s.sub_collections.len() + 1
            &&& made.sub_collections[s.sub_collections.len() as int].id == s.last_sub_collection_id
                + 1
            &&& forall|n: Seq<char>| #[trigger]
                s2.has_sub_named(copy, n) <==> s.has_sub_named(collection_id, n)
            &&& forall|i: int|
                0 <= i < s2.cards.len() ==> (#[trigger] s2.cards[i]).collection_id != copy
            &&& forall|i: int|
                0 <= i < e.cards.len() ==> {
                    let new = #[trigger] copied_card(s, e, new_name, i);
                    &&& new.question == rows[i].question
                    &&& new.answer == rows[i].answer
                    &&& new.title == rows[i].title
                    &&& new.collection_id == copy
                    &&& s2.sub_in_collection(new.sub_collection_id, copy)
                    &&& s2.sub_name(new.sub_collection_id, copy) == s.sub_name(
                        rows[i].sub_collection_id,
                        collection_id,
                    )
                }
        }),
{
    let r = s.import_collection(seq![e], 0, None, Some(new_name));
    let nn = trimmed(new_name);
    let copy = next_collection_id(s);
    let rows = cards_in(s.cards, collection_id);
    let subs = e.sub_collections;
    let cards = e.cards;
    assert(seq![e][0] == e);
    lemma_trimmed_idempotent(new_name);
    lemma_sentinel_proper();
    // The new collection, with its reserved sub-collection.
    let s1 = s.create_collection(nn).0;
    lemma_create_collection(s, nn);
    let null_sub = copy_null_sub(s, new_name);
    lemma_named_sub_valid(s1, copy, sentinel());
    let made_at = choose|x: int|
        0 <= x < s1.collections.len() && (#[trigger] s1.collections[x]).id == copy;
    crate::invariants::lemma_collection_at(s1, made_at);
    // The source collection is there, and has its reserved sub-collection.
    assert(s.has_collection(collection_id));
    let ci = choose|ci: int|
        0 <= ci < s.collections.len() && (#[trigger] s.collections[ci]).id == collection_id;
    assert(s.has_sub_named(s.collections[ci].id, sentinel()));
    // The sub-collections of the copy.
    let s2 = copy_without_cards(s, e, new_name);
    lemma_import_sub_collections(s1, copy, subs);
    assert forall|n: Seq<char>| #[trigger]
        s2.has_sub_named(copy, n) <==> s.has_sub_named(collection_id, n) by {
        if lists_sub_collection(subs, n) {
            let k = choose|k: int| 0 <= k < subs.len() && trimmed(#[trigger] subs[k]) == n;
            assert(subs.contains(subs[k]));
            lemma_proper_sub_name(s, collection_id, subs[k]);
        }
        if s.has_sub_named(collection_id, n) && n != sentinel() {
            assert(subs.contains(n));
            let k = choose|k: int| 0 <= k < subs.len() && subs[k] == n;
            lemma_proper_sub_name(s, collection_id, n);
            assert(trimmed(subs[k]) == n);
        }
    }
    crate::growth::lemma_grown_sub(s1, s2, null_sub, copy);
    // No card is in the copy yet.
    assert forall|i: int| 0 <= i < s2.cards.len() implies (#[trigger] s2.cards[i]).collection_id
        != copy by {
        assert(s.sub_in_collection(s.cards[i].sub_collection_id, s.cards[i].collection_id));
        let w = choose|w: int|
            0 <= w < s.sub_collections.len() && (#[trigger] s.sub_collections[w]).id
                == s.cards[i].sub_collection_id && s.sub_collections[w].collection_id
                == s.cards[i].collection_id;
        assert(s.has_collection(s.sub_collections[w].collection_id));
    }
    // What each card of the document becomes.
    crate::state::lemma_cards_in_members(s.cards, collection_id);
    assert(cards.len() == rows.len());
    assert forall|i: int| 0 <= i < cards.len() implies {
        let new = #[trigger] copied_card(s, e, new_name, i);
        &&& new.question == rows[i].question
        &&& new.answer == rows[i].answer
        &&& new.title == rows[i].title
        &&& new.collection_id == copy
        &&& s2.sub_in_collection(new.sub_collection_id, copy)
        &&& s2.sub_name(new.sub_collection_id, copy) == s.sub_name(
            rows[i].sub_collection_id,
            collection_id,
        )
    } by {
        lemma_copied_card(s, s2, collection_id, copy, e, null_sub, i);
    }
    lemma_copied_cards_differ(s, collection_id, e, new_name);
    assert forall|i: int, j: int| 0 <= i < j < cards.len() implies !same_key(
        #[trigger] imported_card(s2, copy, subs, null_sub, cards, i),
        #[trigger] imported_card(s2, copy, subs, null_sub, cards, j),
    ) by {
        assert(!same_key(copied_card(s, e, new_name, i), copied_card(s, e, new_name, j)));
    }
    let u0 = with_imported_cards(s2, copy, subs, null_sub, cards, 0);
    assert(u0.cards =~= s2.cards);
    assert(u0 == s2);
    assert(cards.skip(0) =~= cards);
    lemma_import_cards_all_new(s2, copy, subs, null_sub, cards, 0);
}

/// Export followed by import into a new collection copies a collection:
/// where `e` is the export of collection `collection_id` and its import
/// into a new collection named `new_name` succeeds, every card of the
/// source was inserted; the copy has sub-collections of exactly the names
/// the source has; and the cards of the copy, taken in order, have the
/// questions, answers and titles of the cards of the source and sit in the
/// sub-collections of the copy that have the names of their own, those of
/// the reserved sub-collection in the reserved sub-collection of the copy.
pub proof fn law_export_import_round_trip(
    s: StoreView,
    collection_id: i64,
    e: ExportCollectionView,
    new_name: Seq<char>,
)
    requires
        s.wf(),
        s.is_export_of(collection_id, e),
        s.import_collection(seq![e], 0, None, Some(new_name)).1 is Ok,
    ensures
        ({
            let r = s.import_collection(seq![e], 0, None, Some(new_name));
            let copy = (s.last_collection_id + 1) as i64;
            &&& r.0.wf()
            &&& r.0.collection_name(copy) == Some(trimmed(new_name))
            &&& !s.has_collection(copy)
            &&& r.1 == Ok::<nat, StoreError>(cards_in(s.cards, collection_id).len())
            &&& cards_in(r.0.cards, copy).len() == cards_in(s.cards, collection_id).len()
            &&& r.0.exported_cards(copy) == s.exported_cards(collection_id)
            &&& forall|n: Seq<char>| #[trigger]
                r.0.has_sub_named(copy, n) <==> s.has_sub_named(collection_id, n)
            &&& forall|m: int|
                0 <= m < cards_in(r.0.cards, copy).len() ==> r.0.sub_in_collection(
                    (#[trigger] cards_in(r.0.cards, copy)[m]).sub_collection_id,
                    copy,
                )
        }),
{
    let copy = next_collection_id(s);
    let rows = cards_in(s.cards, collection_id);
    let subs = e.sub_collections;
    let cards = e.cards;
    let null_sub = copy_null_sub(s, new_name);
    let s1 = s.create_collection(trimmed(new_name)).0;
    let s2 = copy_without_cards(s, e, new_name);
    lemma_round_trip_shape(s, collection_id, e, new_name);
    let t = with_imported_cards(s2, copy, subs, null_sub, cards, cards.len() as int);
    crate::import_laws::lemma_import_collection(s, seq![e], 0, None, Some(new_name));
    lemma_same_tables(s2, t);
    assert(t.collections == s1.collections);
    crate::state::lemma_cards_in_members(s.cards, collection_id);
    // The cards of the copy are the cards that were inserted.
    let fresh = Seq::new(cards.len(), |i: int| imported_card(s2, copy, subs, null_sub, cards, i));
    lemma_cards_in_concat(s2.cards, fresh, copy);
    lemma_cards_in_none(s2.cards, copy);
    assert forall|i: int| 0 <= i < fresh.len() implies (#[trigger] fresh[i]).collection_id
        == copy by {
        assert(fresh[i] == copied_card(s, e, new_name, i));
    }
    lemma_cards_in_all(fresh, copy);
    assert(cards_in(t.cards, copy) =~= fresh);
    assert(t.exported_cards(copy) =~= s.exported_cards(collection_id)) by {
        assert forall|i: int| 0 <= i < fresh.len() implies t.exported_card(fresh[i])
            == s.exported_card(rows[i]) by {
            assert(fresh[i] == copied_card(s, e, new_name, i));
            assert(rows[i].collection_id == collection_id);
        }
    }
    assert forall|m: int| 0 <= m < cards_in(t.cards, copy).len() implies t.sub_in_collection(
        (#[trigger] cards_in(t.cards, copy)[m]).sub_collection_id,
        copy,
    ) by {
        assert(fresh[m] == copied_card(s, e, new_name, m));
    }
}

/// Export followed by import into a new collection leaves every row that
/// was there as it was, the cards of the source among them, and gives the
/// copy sub-collections that are new rows under new ids.
pub proof fn law_round_trip_adds_new_rows_only(
    s: StoreView,
    collection_id: i64,
    e: ExportCollectionView,
    new_name: Seq<char>,
)
    requires
        s.wf(),
        s.is_export_of(collection_id, e),
        s.import_collection(seq![e], 0, None, Some(new_name)).1 is Ok,
    ensures
        ({
            let r = s.import_collection(seq![e], 0, None, Some(new_name));
            let copy = (s.last_collection_id + 1) as i64;
            &&& s.grows_to(r.0)
            &&& cards_in(r.0.cards, collection_id) == cards_in(s.cards, collection_id)
            &&& forall|i: int|
                0 <= i < r.0.sub_collections.len() && (
                #[trigger] r.0.sub_collections[i]).collection_id == copy
                    ==> s.sub_collections.len() <= i && s.last_sub_collection_id
                    < r.0.sub_collections[i].id
        }),
{
    let copy = next_collection_id(s);
    let subs = e.sub_collections;
    let cards = e.cards;
    let null_sub = copy_null_sub(s, new_name);
    let s1 = s.create_collection(trimmed(new_name)).0;
    let s2 = copy_without_cards(s, e, new_name);
    lemma_round_trip_shape(s, collection_id, e, new_name);
    let t = with_imported_cards(s2, copy, subs, null_sub, cards, cards.len() as int);
    crate::import_laws::lemma_import_collection(s, seq![e], 0, None, Some(new_name));
    let fresh = Seq::new(cards.len(), |i: int| imported_card(s2, copy, subs, null_sub, cards, i));
    lemma_cards_in_concat(s2.cards, fresh, collection_id);
    assert forall|i: int| 0 <= i < fresh.len() implies (#[trigger] fresh[i]).collection_id
        != collection_id by {
        assert(fresh[i] == copied_card(s, e, new_name, i));
    }
    lemma_cards_in_none(fresh, collection_id);
    assert(cards_in(t.cards, collection_id) =~= cards_in(s.cards, collection_id));
    let n = s.sub_collections.len() as int;
    assert forall|i: int|
        0 <= i < t.sub_collections.len() && (#[trigger] t.sub_collections[i]).collection_id
            == copy implies n <= i && s.last_sub_collection_id < t.sub_collections[i].id by {
        if i < n {
            assert(s1.sub_collections[i] == s.sub_collections[i]);
            assert(s2.sub_collections[i] == s1.sub_collections[i]);
            assert(s.has_collection(s.sub_collections[i].collection_id));
        } else {
            assert(s2.sub_collections[n] == s1.sub_collections[n]);
            if n < i {
                assert(t.sub_collections[n].id < t.sub_collections[i].id);
            }
        }
    }
}

/// The same, said of documents: the export of the copy carries the
/// sub-collections and the cards that the export of the source carries.
pub proof fn law_export_of_copy_is_export_of_source(
    s: StoreView,
    collection_id: i64,
    e: ExportCollectionView,
    new_name: Seq<char>,
    again: ExportCollectionView,
)
    requires
        s.wf(),
        s.is_export_of(collection_id, e),
        s.import_collection(seq![e], 0, None, Some(new_name)).1 is Ok,
        s.import_collection(seq![e], 0, None, Some(new_name)).0.is_export_of(
            (s.last_collection_id + 1) as i64,
            again,
        ),
    ensures
        again.name == trimmed(new_name),
        again.sub_collections == e.sub_collections,
        again.cards == e.cards,
{
    law_export_import_round_trip(s, collection_id, e, new_name);
    crate::laws::lemma_same_names_same_list(again.sub_collections, e.sub_collections);
}

/// The name of a sub-collection of a well-formed store is a proper name.
pub proof fn lemma_proper_sub_name(s: StoreView, collection_id: i64, name: Seq<char>)
    requires
        s.sub_collections_wf(),
        s.has_sub_named(collection_id, name),
    ensures
        proper_name(name),
{
}

/// What the import into the copy makes of card `i` of the export of the
/// source: a card of the same question, answer and title, in the
/// sub-collection of the copy that has the name of the card's own.
pub proof fn lemma_copied_card(
    s: StoreView,
    s2: StoreView,
    collection_id: i64,
    copy: i64,
    e: ExportCollectionView,
    null_sub: i64,
    i: int,
)
    requires
        s.wf(),
        s2.sub_collections_wf(),
        s.is_export_of(collection_id, e),
        0 <= i < e.cards.len(),
        s2.null_sub_collection_id(copy) == Some(null_sub),
        forall|n: Seq<char>| #[trigger]
            s2.has_sub_named(copy, n) <==> s.has_sub_named(collection_id, n),
    ensures
        ({
            let new = imported_card(s2, copy, e.sub_collections, null_sub, e.cards, i);
            let row = cards_in(s.cards, collection_id)[i];
            &&& new.question == row.question
            &&& new.answer == row.answer
            &&& new.title == row.title
            &&& s2.sub_in_collection(new.sub_collection_id, copy)
            &&& s2.sub_name(new.sub_collection_id, copy) == s.sub_name(
                row.sub_collection_id,
                collection_id,
            )
        }),
{
    let rows = cards_in(s.cards, collection_id);
    let row = rows[i];
    let subs = e.sub_collections;
    crate::state::lemma_cards_in_members(s.cards, collection_id);
    lemma_sentinel_proper();
    assert(e.cards[i] == s.exported_card(row));
    assert(s.cards.contains(row));
    let p = choose|p: int| 0 <= p < s.cards.len() && s.cards[p] == row;
    assert(s.sub_in_collection(s.cards[p].sub_collection_id, s.cards[p].collection_id));
    assert(row.collection_id == collection_id);
    let w = choose|w: int|
        0 <= w < s.sub_collections.len() && (#[trigger] s.sub_collections[w]).id
            == row.sub_collection_id && s.sub_collections[w].collection_id == collection_id;
    lemma_sub_collection_at(s, w);
    let n = s.sub_collections[w].name;
    assert(s.sub_name(row.sub_collection_id, collection_id) == Some(n));
    assert(s.has_sub_named(collection_id, n));
    assert(s2.has_sub_named(copy, sentinel()));
    lemma_named_sub_valid(s2, copy, sentinel());
    if n != sentinel() {
        assert(proper_name(n));
        assert(subs.contains(n));
        let k = choose|k: int| 0 <= k < subs.len() && subs[k] == n;
        assert(trimmed(subs[k]) == n);
        assert(lists_sub_collection(subs, n));
        assert(s2.has_sub_named(copy, n));
        lemma_named_sub_valid(s2, copy, n);
    }
}

} // verus!
