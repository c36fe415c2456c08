use card_store::model::{CardRow, StoredCollection, StoredSubCollection};
use card_store::model::StoreError;
use card_store::rows::{cards_to_delete, seed_null_sub_collection, well_formed_rows};
use card_store::store::CardStore;

fn collection(id: i64, name: &str) -> StoredCollection {
    StoredCollection { id, name: name.to_string() }
}

fn sub(id: i64, name: &str, collection_id: i64) -> StoredSubCollection {
    StoredSubCollection { id, name: name.to_string(), collection_id }
}

fn card(id: i64, q: &str, a: &str, collection_id: i64, sub_collection_id: i64) -> CardRow {
    CardRow {
        id,
        question: q.to_string(),
        answer: a.to_string(),
        title: String::new(),
        skipped: false,
        collection_id,
        sub_collection_id,
    }
}

fn good() -> (Vec<StoredCollection>, Vec<StoredSubCollection>, Vec<CardRow>) {
    (
        vec![collection(1, "Default"), collection(4, "Spanish")],
        vec![sub(1, "- None -", 1), sub(2, "Verbs", 4), sub(5, "- None -", 4)],
        vec![card(3, "q", "a", 1, 1), card(7, "q", "a", 4, 2), card(8, "q", "a", 4, 5)],
    )
}

#[test]
fn well_formed_rows_are_accepted() {
    let (c, s, k) = good();
    assert!(well_formed_rows(&c, &s, &k, 4, 5, 8));
    assert!(well_formed_rows(&c, &s, &k, 10, 10, 10));
    assert!(well_formed_rows(&vec![], &vec![], &vec![], 0, 0, 0));
    assert!(CardStore::from_rows(c, s, k, 4, 5, 8).is_some());
}

#[test]
fn ids_beyond_the_last_one_are_rejected() {
    let (c, s, k) = good();
    assert!(!well_formed_rows(&c, &s, &k, 3, 5, 8));
    assert!(!well_formed_rows(&c, &s, &k, 4, 4, 8));
    assert!(!well_formed_rows(&c, &s, &k, 4, 5, 7));
    assert!(CardStore::from_rows(c, s, k, 4, 5, 7).is_none());
}

#[test]
fn rows_out_of_order_are_rejected() {
    let (mut c, s, k) = good();
    c.swap(0, 1);
    assert!(!well_formed_rows(&c, &s, &k, 4, 5, 8));
    let (c, mut s, k) = good();
    s.swap(1, 2);
    assert!(!well_formed_rows(&c, &s, &k, 4, 5, 8));
    let (c, s, mut k) = good();
    k.swap(0, 2);
    assert!(!well_formed_rows(&c, &s, &k, 4, 5, 8));
    let (c, s, mut k) = good();
    k[1].id = 3;
    assert!(!well_formed_rows(&c, &s, &k, 4, 5, 8));
}

#[test]
fn improper_names_are_rejected() {
    let (mut c, s, k) = good();
    c[1].name = " Spanish".to_string();
    assert!(!well_formed_rows(&c, &s, &k, 4, 5, 8));
    let (mut c, s, k) = good();
    c[1].name = String::new();
    assert!(!well_formed_rows(&c, &s, &k, 4, 5, 8));
    let (c, mut s, k) = good();
    s[1].name = "Verbs\n".to_string();
    assert!(!well_formed_rows(&c, &s, &k, 4, 5, 8));
}

#[test]
fn names_taken_twice_are_rejected() {
    let (mut c, s, k) = good();
    c[1].name = "Default".to_string();
    assert!(!well_formed_rows(&c, &s, &k, 4, 5, 8));
    let (c, mut s, k) = good();
    s[1].name = "- None -".to_string();
    assert!(!well_formed_rows(&c, &s, &k, 4, 5, 8));
}

#[test]
fn dangling_rows_are_rejected() {
    let (c, mut s, k) = good();
    s[1].collection_id = 9;
    assert!(!well_formed_rows(&c, &s, &k, 4, 5, 8));
    let (c, s, mut k) = good();
    k[0].sub_collection_id = 2;
    assert!(!well_formed_rows(&c, &s, &k, 4, 5, 8));
    let (c, s, mut k) = good();
    k[0].sub_collection_id = 6;
    assert!(!well_formed_rows(&c, &s, &k, 4, 5, 8));
}

#[test]
fn a_collection_without_its_reserved_sub_collection_is_rejected() {
    let (c, mut s, mut k) = good();
    s.remove(2);
    k.remove(2);
    assert!(!well_formed_rows(&c, &s, &k, 4, 5, 8));
}

#[test]
fn cards_with_the_same_key_are_rejected() {
    let (c, s, mut k) = good();
    k[2].sub_collection_id = 2;
    assert!(!well_formed_rows(&c, &s, &k, 4, 5, 8));
    k[2].answer = "b".to_string();
    assert!(well_formed_rows(&c, &s, &k, 4, 5, 8));
}

#[test]
fn the_first_collection_gets_its_reserved_sub_collection() {
    let collections = vec![collection(1, "Default"), collection(2, "Spanish")];
    let mut subs = vec![sub(3, "Verbs", 1), sub(4, "- None -", 2)];
    assert_eq!(seed_null_sub_collection(&collections, &mut subs, 7), 8);
    assert_eq!(subs.len(), 3);
    assert_eq!((subs[2].id, subs[2].name.as_str(), subs[2].collection_id), (8, "- None -", 1));
    assert_eq!(seed_null_sub_collection(&collections, &mut subs, 8), 8);
    assert_eq!(subs.len(), 3);
}

#[test]
fn seeding_leaves_other_rows_alone() {
    let collections = vec![collection(2, "Spanish")];
    let mut subs: Vec<StoredSubCollection> = Vec::new();
    assert_eq!(seed_null_sub_collection(&collections, &mut subs, 0), 0);
    assert!(subs.is_empty());
    let collections = vec![collection(1, "Default")];
    assert_eq!(seed_null_sub_collection(&collections, &mut subs, i64::MAX), i64::MAX);
    assert!(subs.is_empty());
    let mut subs = vec![sub(1, "- none -", 1)];
    assert_eq!(seed_null_sub_collection(&collections, &mut subs, 1), 2);
    assert_eq!(subs.len(), 2);
}

#[test]
fn a_store_opens_on_rows_without_the_first_reserved_sub_collection() {
    let store = CardStore::open(vec![collection(1, "Default")], vec![], vec![], 1, 0, 0).unwrap();
    assert_eq!(store.last_ids(), (1, 1, 0));
    assert_eq!(store.get_null_sub_collection_id(1), Ok(1));
    let store = CardStore::open(vec![], vec![], vec![], 0, 0, 0).unwrap();
    assert_eq!(store.last_ids(), (1, 1, 0));
    assert_eq!(store.get_collections()[0].name, "Default");
    let (c, s, k) = good();
    let store = CardStore::open(c, s, k, 4, 5, 8).unwrap();
    assert_eq!(store.last_ids(), (4, 5, 8));
}

#[test]
fn a_store_does_not_open_on_inconsistent_rows() {
    let (c, mut s, mut k) = good();
    s.remove(2);
    k.remove(2);
    assert_eq!(CardStore::open(c, s, k, 4, 5, 8).err(), Some(StoreError::Inconsistent));
    let opened = CardStore::open(vec![collection(1, "Other")], vec![], vec![], i64::MAX, 0, 0);
    assert_eq!(opened.err(), Some(StoreError::StoreFull));
}

#[test]
fn cards_that_are_gone_are_to_delete() {
    let (_, _, k) = good();
    assert_eq!(cards_to_delete(&vec![1, 3, 5, 7, 8, 9], &k), vec![1, 5, 9]);
    assert_eq!(cards_to_delete(&vec![3, 7, 8], &k), Vec::<i64>::new());
    assert_eq!(cards_to_delete(&vec![], &k), Vec::<i64>::new());
    assert_eq!(cards_to_delete(&vec![2, 2], &vec![]), vec![2, 2]);
}
