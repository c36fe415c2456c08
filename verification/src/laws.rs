//! Laws of the store that relate several of its operations.

use vstd::prelude::*;
use crate::growth::{lemma_create_collection, lemma_init_db};
use crate::import_laws::lemma_named_sub_valid;
use crate::invariants::{lemma_same_tables, lemma_sentinel_proper};
use crate::model::{CollectionView, ExportCollectionView, StoreError, SubCollectionView};
use crate::order::lemma_ascending_unique;
use crate::state::{card_has_key, sentinel, title_or_empty, StoreView};
use crate::text::{
    ascii_lower_code, eq_ignoring_ascii_case, is_whitespace, lemma_trimmed_fixed, str_less,
    trimmed,
};

verus! {

/// Every collection of a well-formed store owns its reserved
/// sub-collection, and neither a listing of its sub-collections nor its
/// export shows it.
pub proof fn law_sentinel_exists_and_is_hidden(
    s: StoreView,
    collection_id: i64,
    listing: Seq<SubCollectionView>,
    e: ExportCollectionView,
)
    requires
        s.wf(),
        s.has_collection(collection_id),
    ensures
        s.null_sub_collection_id(collection_id) is Some,
        s.sub_in_collection(s.null_sub_collection_id(collection_id).unwrap(), collection_id),
        s.is_sub_collection_listing(collection_id, listing) ==> forall|i: int|
            0 <= i < listing.len() ==> (#[trigger] listing[i]).name != sentinel() && listing[i].id
                != s.null_sub_collection_id(collection_id).unwrap(),
        s.is_export_of(collection_id, e) ==> !e.sub_collections.contains(sentinel()),
{
    let c = choose|c: int|
        0 <= c < s.collections.len() && (#[trigger] s.collections[c]).id == collection_id;
    assert(s.has_sub_named(s.collections[c].id, sentinel()));
    lemma_named_sub_valid(s, collection_id, sentinel());
    let null_sub = s.null_sub_collection_id(collection_id).unwrap();
    if s.is_sub_collection_listing(collection_id, listing) {
        assert forall|i: int| 0 <= i < listing.len() implies (#[trigger] listing[i]).name
            != sentinel() && listing[i].id != null_sub by {
            assert(s.sub_collections.contains(listing[i]));
            let w = choose|w: int|
                0 <= w < s.sub_collections.len() && s.sub_collections[w] == listing[i];
            crate::invariants::lemma_sub_collection_at(s, w);
        }
    }
}

/// Every collection of a well-formed store has exactly one sub-collection
/// of the reserved name, and every collection name belongs to exactly one
/// collection.
pub proof fn law_one_sentinel_per_collection(s: StoreView, collection_id: i64)
    requires
        s.wf(),
        s.has_collection(collection_id),
    ensures
        exists|i: int|
            0 <= i < s.sub_collections.len() && (#[trigger] s.sub_collections[i]).collection_id
                == collection_id && s.sub_collections[i].name == sentinel(),
        forall|i: int, j: int|
            0 <= i < s.sub_collections.len() && 0 <= j < s.sub_collections.len() && (
            #[trigger] s.sub_collections[i]).collection_id == collection_id
                && s.sub_collections[i].name == sentinel() && (
            #[trigger] s.sub_collections[j]).collection_id == collection_id
                && s.sub_collections[j].name == sentinel() ==> i == j,
        forall|i: int, j: int|
            0 <= i < s.collections.len() && 0 <= j < s.collections.len() && (
            #[trigger] s.collections[i]).name == (#[trigger] s.collections[j]).name ==> i == j,
{
    let c = choose|c: int|
        0 <= c < s.collections.len() && (#[trigger] s.collections[c]).id == collection_id;
    assert(s.has_sub_named(s.collections[c].id, sentinel()));
    assert forall|i: int, j: int|
        0 <= i < s.sub_collections.len() && 0 <= j < s.sub_collections.len() && (
        #[trigger] s.sub_collections[i]).collection_id == collection_id
            && s.sub_collections[i].name == sentinel() && (
        #[trigger] s.sub_collections[j]).collection_id == collection_id
            && s.sub_collections[j].name == sentinel() implies i == j by {
        if i < j {
            assert(!(s.sub_collections[i].collection_id == s.sub_collections[j].collection_id
                && s.sub_collections[i].name == s.sub_collections[j].name));
        } else if j < i {
            assert(!(s.sub_collections[j].collection_id == s.sub_collections[i].collection_id
                && s.sub_collections[j].name == s.sub_collections[i].name));
        }
    }
    assert forall|i: int, j: int|
        0 <= i < s.collections.len() && 0 <= j < s.collections.len() && (
        #[trigger] s.collections[i]).name == (#[trigger] s.collections[j]).name implies i
        == j by {
        if i < j {
            assert(s.collections[i].name != s.collections[j].name);
        } else if j < i {
            assert(s.collections[j].name != s.collections[i].name);
        }
    }
}

/// A collection that was just created has its reserved sub-collection at
/// once, and no other sub-collection: a listing of its sub-collections is
/// empty, and so is the list of sub-collections of its export.
pub proof fn law_created_collection_has_sentinel(
    s: StoreView,
    name: Seq<char>,
    listing: Seq<SubCollectionView>,
    e: ExportCollectionView,
)
    requires
        s.wf(),
        s.create_collection(name).1 is Ok,
    ensures
        ({
            let t = s.create_collection(name).0;
            let c = s.create_collection(name).1.unwrap();
            &&& t.wf()
            &&& t.has_collection(c.id)
            &&& t.null_sub_collection_id(c.id) is Some
            &&& t.is_sub_collection_listing(c.id, listing) ==> listing.len() == 0
            &&& t.is_export_of(c.id, e) ==> e.sub_collections.len() == 0
        }),
{
    let t = s.create_collection(name).0;
    let c = s.create_collection(name).1.unwrap();
    lemma_create_collection(s, name);
    if t.is_sub_collection_listing(c.id, listing) && listing.len() > 0 {
        assert(t.sub_collections.contains(listing[0]));
        let w = choose|w: int|
            0 <= w < t.sub_collections.len() && t.sub_collections[w] == listing[0];
        assert(t.has_sub_named(c.id, listing[0].name));
    }
    if t.is_export_of(c.id, e) && e.sub_collections.len() > 0 {
        assert(e.sub_collections.contains(e.sub_collections[0]));
        assert(t.has_sub_named(c.id, e.sub_collections[0]));
    }
}

/// A text that matches the reserved name up to the case of its letters
/// has nothing to trim.
pub proof fn lemma_reserved_name_is_trimmed(name: Seq<char>)
    requires
        eq_ignoring_ascii_case(name, sentinel()),
    ensures
        trimmed(name) == name,
        name.len() > 0,
{
    lemma_sentinel_proper();
    assert(ascii_lower_code(name[0]) == ascii_lower_code(sentinel()[0]));
    assert(ascii_lower_code(name[7]) == ascii_lower_code(sentinel()[7]));
    assert(name.last() == name[7]);
    assert(!is_whitespace(name[0]));
    assert(!is_whitespace(name[7]));
    lemma_trimmed_fixed(name);
}

/// Creating a sub-collection under the reserved name, in any case of its
/// letters and with or without whitespace around it, fails with
/// `ReservedName` and changes nothing.
pub proof fn law_reserved_name_rejected(s: StoreView, collection_id: i64, name: Seq<char>)
    requires
        eq_ignoring_ascii_case(name, sentinel()) || eq_ignoring_ascii_case(
            trimmed(name),
            sentinel(),
        ),
    ensures
        s.create_sub_collection(collection_id, name) == (
            s,
            Err::<SubCollectionView, StoreError>(StoreError::ReservedName),
        ),
{
    lemma_sentinel_proper();
    if eq_ignoring_ascii_case(name, sentinel()) {
        lemma_reserved_name_is_trimmed(name);
    }
}

/// Adding the same card twice: where the first call succeeds, the second,
/// with the same collection, sub-collection, question and answer, fails
/// with `DuplicateCard` and changes nothing, and exactly one card holds
/// that collection, sub-collection, question and answer.
pub proof fn law_add_card_twice(
    s: StoreView,
    question: Seq<char>,
    answer: Seq<char>,
    collection_id: i64,
    title: Option<Seq<char>>,
    second_title: Option<Seq<char>>,
    sub_collection_id: Option<i64>,
)
    requires
        s.wf(),
        s.add_card(question, answer, collection_id, title, sub_collection_id).1 is Ok,
    ensures
        ({
            let t = s.add_card(question, answer, collection_id, title, sub_collection_id).0;
            let sub = s.resolve_sub_collection(collection_id, sub_collection_id).unwrap();
            &&& t.add_card(question, answer, collection_id, second_title, sub_collection_id) == (
                t,
                Err::<(), StoreError>(StoreError::DuplicateCard),
            )
            &&& t.cards.len() == s.cards.len() + 1
            &&& forall|i: int, j: int|
                0 <= i < t.cards.len() && 0 <= j < t.cards.len() && card_has_key(
                    #[trigger] t.cards[i],
                    collection_id,
                    sub,
                    question,
                    answer,
                ) && card_has_key(#[trigger] t.cards[j], collection_id, sub, question, answer) ==> i
                    == j
            &&& t.has_card_key(collection_id, sub, question, answer)
        }),
{
    let t = s.add_card(question, answer, collection_id, title, sub_collection_id).0;
    let sub = s.resolve_sub_collection(collection_id, sub_collection_id).unwrap();
    crate::growth::lemma_insert_card(
        s,
        collection_id,
        sub,
        question,
        answer,
        title_or_empty(title),
    );
    lemma_same_tables(s, t);
    assert forall|i: int, j: int|
        0 <= i < t.cards.len() && 0 <= j < t.cards.len() && card_has_key(
            #[trigger] t.cards[i],
            collection_id,
            sub,
            question,
            answer,
        ) && card_has_key(#[trigger] t.cards[j], collection_id, sub, question, answer) implies i
        == j by {
        if i < j {
            assert(!crate::state::same_key(t.cards[i], t.cards[j]));
        } else if j < i {
            assert(!crate::state::same_key(t.cards[j], t.cards[i]));
        }
    }
}

/// Making sure of the first collection a second time changes nothing.
pub proof fn law_init_db_idempotent(s: StoreView)
    requires
        s.wf(),
        s.init_db().1 is Ok,
    ensures
        s.init_db().0.init_db() == (s.init_db().0, Ok::<(), StoreError>(())),
{
    lemma_init_db(s);
}

/// A store has one listing of its collections.
pub proof fn law_collection_listing_is_determined(
    s: StoreView,
    a: Seq<CollectionView>,
    b: Seq<CollectionView>,
)
    requires
        s.is_collection_listing(a),
        s.is_collection_listing(b),
    ensures
        a == b,
{
    assert forall|i: int| 0 <= i < a.len() implies b.contains(#[trigger] a[i]) by {
        assert(s.collections.contains(a[i]));
        let w = choose|w: int| 0 <= w < s.collections.len() && s.collections[w] == a[i];
        assert(b.contains(s.collections[w]));
    }
    assert forall|i: int| 0 <= i < b.len() implies a.contains(#[trigger] b[i]) by {
        assert(s.collections.contains(b[i]));
        let w = choose|w: int| 0 <= w < s.collections.len() && s.collections[w] == b[i];
        assert(a.contains(s.collections[w]));
    }
    lemma_ascending_unique(a, b, |c: CollectionView| c.name);
}

/// A collection has one listing of its sub-collections.
pub proof fn law_sub_collection_listing_is_determined(
    s: StoreView,
    collection_id: i64,
    a: Seq<SubCollectionView>,
    b: Seq<SubCollectionView>,
)
    requires
        s.is_sub_collection_listing(collection_id, a),
        s.is_sub_collection_listing(collection_id, b),
    ensures
        a == b,
{
    assert forall|i: int| 0 <= i < a.len() implies b.contains(#[trigger] a[i]) by {
        assert(s.sub_collections.contains(a[i]));
        let w = choose|w: int| 0 <= w < s.sub_collections.len() && s.sub_collections[w] == a[i];
        assert(b.contains(s.sub_collections[w]));
    }
    assert forall|i: int| 0 <= i < b.len() implies a.contains(#[trigger] b[i]) by {
        assert(s.sub_collections.contains(b[i]));
        let w = choose|w: int| 0 <= w < s.sub_collections.len() && s.sub_collections[w] == b[i];
        assert(a.contains(s.sub_collections[w]));
    }
    lemma_ascending_unique(a, b, |c: SubCollectionView| c.name);
}

/// A collection has one export.
pub proof fn law_export_is_determined(
    s: StoreView,
    collection_id: i64,
    a: ExportCollectionView,
    b: ExportCollectionView,
)
    requires
        s.is_export_of(collection_id, a),
        s.is_export_of(collection_id, b),
    ensures
        a == b,
{
    lemma_same_names_same_list(a.sub_collections, b.sub_collections);
}

/// Two lists of names in strictly ascending order that hold the same
/// names are one list.
pub proof fn lemma_same_names_same_list(a: Seq<Seq<char>>, b: Seq<Seq<char>>)
    requires
        forall|i: int, j: int| 0 <= i < j < a.len() ==> str_less(#[trigger] a[i], #[trigger] a[j]),
        forall|i: int, j: int| 0 <= i < j < b.len() ==> str_less(#[trigger] b[i], #[trigger] b[j]),
        forall|n: Seq<char>| #[trigger] a.contains(n) <==> b.contains(n),
    ensures
        a == b,
{
    assert forall|i: int| 0 <= i < a.len() implies b.contains(#[trigger] a[i]) by {
        assert(a.contains(a[i]));
    }
    assert forall|i: int| 0 <= i < b.len() implies a.contains(#[trigger] b[i]) by {
        assert(b.contains(b[i]));
    }
    lemma_ascending_unique(a, b, |n: Seq<char>| n);
}

/// A store has one export.
pub proof fn law_export_of_all_is_determined(
    s: StoreView,
    a: Seq<ExportCollectionView>,
    b: Seq<ExportCollectionView>,
)
    requires
        s.wf(),
        s.is_export(a),
        s.is_export(b),
    ensures
        a == b,
{
    lemma_export_lists_every_collection(s, a);
    lemma_export_lists_every_collection(s, b);
    assert forall|i: int| 0 <= i < a.len() implies b.contains(#[trigger] a[i]) by {
        let w = choose|w: int|
            0 <= w < s.collections.len() && (#[trigger] s.collections[w]).name == a[i].name;
        assert(has_entry(b, s.collections[w].name));
        let j = choose|j: int| 0 <= j < b.len() && (#[trigger] b[j]).name == s.collections[w].name;
        law_export_is_determined(s, s.collection_named(a[i].name).unwrap(), a[i], b[j]);
    }
    assert forall|i: int| 0 <= i < b.len() implies a.contains(#[trigger] b[i]) by {
        let w = choose|w: int|
            0 <= w < s.collections.len() && (#[trigger] s.collections[w]).name == b[i].name;
        assert(has_entry(a, s.collections[w].name));
        let j = choose|j: int| 0 <= j < a.len() && (#[trigger] a[j]).name == s.collections[w].name;
        law_export_is_determined(s, s.collection_named(b[i].name).unwrap(), b[i], a[j]);
    }
    lemma_ascending_unique(a, b, |c: ExportCollectionView| c.name);
}

/// The document has an entry of this name.
pub open spec fn has_entry(d: Seq<ExportCollectionView>, name: Seq<char>) -> bool {
    exists|j: int| 0 <= j < d.len() && (#[trigger] d[j]).name == name
}

/// An export of a well-formed store has an entry for every collection.
pub proof fn lemma_export_lists_every_collection(s: StoreView, d: Seq<ExportCollectionView>)
    requires
        s.wf(),
        s.is_export(d),
    ensures
        forall|w: int|
            0 <= w < s.collections.len() ==> has_entry(d, (#[trigger] s.collections[w]).name),
{
    // Each entry names a collection, no two the same one: as many entries
    // as collections leave none out.
    let at = |j: int|
        choose|w: int|
            0 <= w < s.collections.len() && (#[trigger] s.collections[w]).name == d[j].name;
    assert forall|j: int| 0 <= j < d.len() implies 0 <= #[trigger] at(j) < s.collections.len()
        && s.collections[at(j)].name == d[j].name by {
        assert(s.has_collection_named(d[j].name));
    }
    assert forall|i: int, j: int| 0 <= i < j < d.len() implies #[trigger] at(i) != #[trigger] at(
        j,
    ) by {
        assert(str_less(d[i].name, d[j].name));
        crate::text::lemma_str_less_irreflexive(d[i].name);
    }
    lemma_injection_is_onto(d.len() as int, at);
    assert forall|w: int| 0 <= w < s.collections.len() implies has_entry(
        d,
        (#[trigger] s.collections[w]).name,
    ) by {
        assert(reaches(d.len() as int, at, w));
        let j = choose|j: int| 0 <= j < d.len() && #[trigger] at(j) == w;
        assert(d[j].name == s.collections[w].name);
    }
}

/// One of the first `n` numbers is sent to `w`.
pub open spec fn reaches(n: int, f: spec_fn(int) -> int, w: int) -> bool {
    exists|i: int| 0 <= i < n && #[trigger] f(i) == w
}

/// A map of the first `n` numbers into themselves that sends no two to the
/// same number reaches each of them.
pub proof fn lemma_injection_is_onto(n: int, f: spec_fn(int) -> int)
    requires
        0 <= n,
        forall|i: int| 0 <= i < n ==> 0 <= #[trigger] f(i) < n,
        forall|i: int, j: int| 0 <= i < j < n ==> #[trigger] f(i) != #[trigger] f(j),
    ensures
        forall|w: int| 0 <= w < n ==> #[trigger] reaches(n, f, w),
    decreases n,
{
    if n > 0 {
        assert forall|w: int| 0 <= w < n implies #[trigger] reaches(n, f, w) by {
            // Leave out the number that `n - 1` is sent to, and close the gap.
            let last = f(n - 1);
            let g = |i: int|
                if f(i) < last {
                    f(i)
                } else {
                    f(i) - 1
                };
            assert forall|i: int| 0 <= i < n - 1 implies 0 <= #[trigger] g(i) < n - 1 by {
                assert(f(i) != f(n - 1));
            }
            assert forall|i: int, j: int| 0 <= i < j < n - 1 implies #[trigger] g(i)
                != #[trigger] g(j) by {
                assert(f(i) != f(j));
                assert(f(i) != f(n - 1));
                assert(f(j) != f(n - 1));
            }
            lemma_injection_is_onto(n - 1, g);
            if w == last {
                assert(f(n - 1) == w);
            } else {
                let v = if w < last {
                    w
                } else {
                    w - 1
                };
                assert(reaches(n - 1, g, v));
                let i = choose|i: int| 0 <= i < n - 1 && #[trigger] g(i) == v;
                assert(f(i) != f(n - 1));
                assert(f(i) == w);
            }
        }
    }
}

} // verus!
