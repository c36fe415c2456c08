use card_store::model::{Named, StoreError, StoredCard};
use card_store::store::CardStore;

fn text(s: &str) -> String {
    s.to_string()
}

fn questions(cards: &Vec<StoredCard>) -> Vec<String> {
    cards.iter().map(|c| c.question.clone()).collect()
}

#[test]
fn new_store_has_the_default_collection() {
    let store = CardStore::new();
    let collections = store.get_collections();
    assert_eq!(collections.len(), 1);
    assert_eq!(collections[0].id, 1);
    assert_eq!(collections[0].name, "Default");
    assert_eq!(store.get_null_sub_collection_id(1), Ok(1));
    assert_eq!(store.get_null_sub_collection_id(2), Err(StoreError::NotFound));
    assert_eq!(store.last_ids(), (1, 1, 0));
}

#[test]
fn init_db_is_idempotent() {
    let mut store = CardStore::new();
    store.add_card(text("q"), text("a"), 1, None, None).unwrap();
    let before = store.last_ids();
    assert_eq!(store.init_db(), Ok(()));
    assert_eq!(store.init_db(), Ok(()));
    assert_eq!(store.last_ids(), before);
    assert_eq!(store.get_collections().len(), 1);
    assert_eq!(store.sub_collections().len(), 1);
    assert_eq!(store.get_cards(1).len(), 1);
}

#[test]
fn create_collection_trims_the_name() {
    let mut store = CardStore::new();
    let c = store.create_collection(text("  Spanish \t\n")).unwrap();
    assert_eq!(c.id, 2);
    assert_eq!(c.name, "Spanish");
    assert_eq!(store.collection_name(2), Some(text("Spanish")));
    assert_eq!(store.collection_named(&text("Spanish")), Some(2));
    assert_eq!(store.collection_named(&text("  Spanish ")), None);
}

#[test]
fn create_collection_trims_unicode_whitespace() {
    let mut store = CardStore::new();
    let c = store.create_collection(text("\u{3000}\u{a0}Kanji\u{2003}\u{85}")).unwrap();
    assert_eq!(c.name, "Kanji");
    let d = store.create_collection(text("\u{200b}Zero")).unwrap();
    assert_eq!(d.name, "\u{200b}Zero");
}

#[test]
fn create_collection_rejects_blank_names() {
    let mut store = CardStore::new();
    let invalid = StoreError::InvalidName(Named::Collection);
    assert_eq!(store.create_collection(text("")).unwrap_err(), invalid);
    assert_eq!(store.create_collection(text("   \t ")).unwrap_err(), invalid);
    assert_eq!(store.get_collections().len(), 1);
    assert_eq!(store.last_ids(), (1, 1, 0));
}

#[test]
fn create_collection_rejects_a_name_that_is_taken() {
    let mut store = CardStore::new();
    store.create_collection(text("Spanish")).unwrap();
    assert_eq!(store.create_collection(text(" Spanish ")).unwrap_err(), StoreError::NameTaken);
    assert_eq!(store.create_collection(text("Default")).unwrap_err(), StoreError::NameTaken);
    assert!(store.create_collection(text("spanish")).is_ok());
    assert_eq!(store.get_collections().len(), 3);
}

#[test]
fn created_collection_has_its_reserved_sub_collection_at_once() {
    let mut store = CardStore::new();
    let c = store.create_collection(text("Spanish")).unwrap();
    let null_id = store.get_null_sub_collection_id(c.id).unwrap();
    assert_eq!(null_id, 2);
    assert!(store.get_sub_collections(c.id).is_empty());
    let rows = store.sub_collections();
    assert_eq!(rows.len(), 2);
    assert_eq!(rows[1].id, null_id);
    assert_eq!(rows[1].name, "- None -");
    assert_eq!(rows[1].collection_id, c.id);
    let export = store.export_collection(c.id).unwrap();
    assert!(export.collections[0].sub_collections.is_empty());
}

#[test]
fn reserved_sub_collection_is_never_listed() {
    let mut store = CardStore::new();
    let c = store.create_collection(text("Spanish")).unwrap();
    store.create_sub_collection(c.id, text("Verbs")).unwrap();
    store.create_sub_collection(c.id, text("Animals")).unwrap();
    let listing = store.get_sub_collections(c.id);
    let names: Vec<&str> = listing.iter().map(|s| s.name.as_str()).collect();
    assert_eq!(names, vec!["Animals", "Verbs"]);
    assert!(listing.iter().all(|s| s.collection_id == c.id));
    let all = store.export_collections();
    for collection in &all.collections {
        assert!(collection.sub_collections.iter().all(|s| s.name != "- None -"));
    }
}

#[test]
fn create_sub_collection_rejects_the_reserved_name_in_any_case() {
    let mut store = CardStore::new();
    for name in ["- None -", "- none -", "- NONE -", "- nOnE -", "  - None -  ", "\t- NONE -\n"] {
        assert_eq!(
            store.create_sub_collection(1, text(name)).unwrap_err(),
            StoreError::ReservedName,
            "{}",
            name
        );
    }
    assert_eq!(store.sub_collections().len(), 1);
    assert!(store.create_sub_collection(1, text("-None-")).is_ok());
    assert!(store.create_sub_collection(1, text("- None - ")).is_err());
    assert!(store.create_sub_collection(1, text("- N\u{f6}ne -")).is_ok());
}

#[test]
fn create_sub_collection_checks_name_and_collection() {
    let mut store = CardStore::new();
    assert_eq!(
        store.create_sub_collection(1, text(" ")).unwrap_err(),
        StoreError::InvalidName(Named::SubCollection)
    );
    assert_eq!(store.create_sub_collection(9, text("Verbs")).unwrap_err(), StoreError::NotFound);
    let s = store.create_sub_collection(1, text(" Verbs ")).unwrap();
    assert_eq!((s.id, s.name.as_str(), s.collection_id), (2, "Verbs", 1));
    assert_eq!(store.create_sub_collection(1, text("Verbs")).unwrap_err(), StoreError::NameTaken);
    let c = store.create_collection(text("Other")).unwrap();
    let t = store.create_sub_collection(c.id, text("Verbs")).unwrap();
    assert_eq!((t.id, t.collection_id), (4, c.id));
    assert_eq!(store.sub_collection_named(1, &text("Verbs")), Some(2));
    assert_eq!(store.sub_collection_named(c.id, &text("Verbs")), Some(4));
    assert_eq!(store.sub_collection_named(c.id, &text("Nouns")), None);
}

#[test]
fn get_or_create_sub_collection_finds_before_it_creates() {
    let mut store = CardStore::new();
    assert_eq!(store.get_or_create_sub_collection(1, " Verbs "), Ok(2));
    assert_eq!(store.get_or_create_sub_collection(1, "Verbs"), Ok(2));
    assert_eq!(store.get_or_create_sub_collection(1, "- None -"), Ok(1));
    assert_eq!(
        store.get_or_create_sub_collection(1, "   "),
        Err(StoreError::InvalidName(Named::SubCollection))
    );
    assert_eq!(store.get_or_create_sub_collection(5, "Verbs"), Err(StoreError::NotFound));
    assert_eq!(store.get_or_create_sub_collection(1, "Nouns"), Ok(3));
    assert_eq!(store.sub_collections().len(), 3);
}

#[test]
fn collections_are_listed_by_name_in_code_point_order() {
    let mut store = CardStore::new();
    for name in ["banana", "Zebra", "apple", "\u{e9}clair", "Apple", "app"] {
        store.create_collection(text(name)).unwrap();
    }
    let listing = store.get_collections();
    let names: Vec<&str> = listing.iter().map(|c| c.name.as_str()).collect();
    assert_eq!(names, vec!["Apple", "Default", "Zebra", "app", "apple", "banana", "\u{e9}clair"]);
    let ids: Vec<i64> = listing.iter().map(|c| c.id).collect();
    assert_eq!(ids, vec![6, 1, 3, 7, 4, 2, 5]);
}

#[test]
fn add_card_defaults_to_the_reserved_sub_collection() {
    let mut store = CardStore::new();
    assert_eq!(store.add_card(text("hola"), text("hello"), 1, None, None), Ok(()));
    let cards = store.get_cards(1);
    assert_eq!(cards.len(), 1);
    assert_eq!(cards[0].id, 1);
    assert_eq!(cards[0].question, "hola");
    assert_eq!(cards[0].answer, "hello");
    assert_eq!(cards[0].title, "");
    assert!(!cards[0].skipped);
    assert_eq!(cards[0].sub_collection_id, Some(1));
}

#[test]
fn add_card_keeps_text_as_given() {
    let mut store = CardStore::new();
    store.add_card(text(" hola "), text("hello\n"), 1, Some(text(" T ")), None).unwrap();
    let cards = store.get_cards(1);
    assert_eq!(cards[0].question, " hola ");
    assert_eq!(cards[0].answer, "hello\n");
    assert_eq!(cards[0].title, " T ");
}

#[test]
fn add_card_twice_fails_with_duplicate_card() {
    let mut store = CardStore::new();
    assert_eq!(store.add_card(text("hola"), text("hello"), 1, None, None), Ok(()));
    assert_eq!(
        store.add_card(text("hola"), text("hello"), 1, None, None),
        Err(StoreError::DuplicateCard)
    );
    assert_eq!(
        store.add_card(text("hola"), text("hello"), 1, Some(text("other title")), Some(1)),
        Err(StoreError::DuplicateCard)
    );
    assert_eq!(store.get_cards(1).len(), 1);
    assert_eq!(store.cards().len(), 1);
    assert_eq!(store.last_ids().2, 1);
}

#[test]
fn same_question_in_another_sub_collection_is_no_duplicate() {
    let mut store = CardStore::new();
    let verbs = store.create_sub_collection(1, text("Verbs")).unwrap();
    let other = store.create_collection(text("Other")).unwrap();
    assert_eq!(store.add_card(text("q"), text("a"), 1, None, None), Ok(()));
    assert_eq!(store.add_card(text("q"), text("a"), 1, None, Some(verbs.id)), Ok(()));
    assert_eq!(store.add_card(text("q"), text("a"), other.id, None, None), Ok(()));
    assert_eq!(store.add_card(text("q"), text("b"), 1, None, None), Ok(()));
    assert_eq!(store.add_card(text("Q"), text("a"), 1, None, None), Ok(()));
    assert_eq!(store.get_cards(1).len(), 4);
    assert_eq!(store.get_cards(other.id).len(), 1);
}

#[test]
fn add_card_guards_collection_and_sub_collection() {
    let mut store = CardStore::new();
    let other = store.create_collection(text("Other")).unwrap();
    let verbs = store.create_sub_collection(other.id, text("Verbs")).unwrap();
    assert_eq!(store.add_card(text("q"), text("a"), 7, None, None), Err(StoreError::NotFound));
    assert_eq!(store.add_card(text("q"), text("a"), 1, None, Some(99)), Err(StoreError::NotFound));
    assert_eq!(
        store.add_card(text("q"), text("a"), 1, None, Some(verbs.id)),
        Err(StoreError::NotFound)
    );
    assert_eq!(store.add_card(text("q"), text("a"), other.id, None, Some(verbs.id)), Ok(()));
    assert!(store.get_cards(1).is_empty());
    assert_eq!(store.get_cards(other.id)[0].sub_collection_id, Some(verbs.id));
}

#[test]
fn get_cards_lists_one_collection_by_ascending_id() {
    let mut store = CardStore::new();
    let other = store.create_collection(text("Other")).unwrap();
    store.add_card(text("c"), text("1"), 1, None, None).unwrap();
    store.add_card(text("x"), text("2"), other.id, None, None).unwrap();
    store.add_card(text("a"), text("3"), 1, None, None).unwrap();
    store.add_card(text("b"), text("4"), 1, None, None).unwrap();
    let cards = store.get_cards(1);
    assert_eq!(questions(&cards), vec!["c", "a", "b"]);
    assert_eq!(cards.iter().map(|c| c.id).collect::<Vec<_>>(), vec![1, 3, 4]);
    assert_eq!(questions(&store.get_cards(other.id)), vec!["x"]);
    assert!(store.get_cards(42).is_empty());
}

#[test]
fn update_card_rewrites_every_field_but_skipped() {
    let mut store = CardStore::new();
    let other = store.create_collection(text("Other")).unwrap();
    let verbs = store.create_sub_collection(other.id, text("Verbs")).unwrap();
    store.add_card(text("q"), text("a"), 1, Some(text("t")), None).unwrap();
    store.set_card_skipped(1, true);
    assert_eq!(
        store.update_card(1, text("q2"), text("a2"), other.id, None, Some(verbs.id)),
        Ok(())
    );
    assert!(store.get_cards(1).is_empty());
    let cards = store.get_cards(other.id);
    assert_eq!(cards.len(), 1);
    assert_eq!(cards[0].id, 1);
    assert_eq!(cards[0].question, "q2");
    assert_eq!(cards[0].answer, "a2");
    assert_eq!(cards[0].title, "");
    assert!(cards[0].skipped);
    assert_eq!(cards[0].sub_collection_id, Some(verbs.id));
    let retitled = store.update_card(1, text("q3"), text("a3"), other.id, Some(text("T")), None);
    assert_eq!(retitled, Ok(()));
    let cards = store.get_cards(other.id);
    assert_eq!(cards[0].title, "T");
    let null_sub = store.get_null_sub_collection_id(other.id).unwrap();
    assert_eq!(cards[0].sub_collection_id, Some(null_sub));
}

#[test]
fn update_card_reports_duplicates_and_missing_targets() {
    let mut store = CardStore::new();
    store.add_card(text("q1"), text("a1"), 1, None, None).unwrap();
    store.add_card(text("q2"), text("a2"), 1, None, None).unwrap();
    assert_eq!(
        store.update_card(2, text("q1"), text("a1"), 1, None, None),
        Err(StoreError::DuplicateCard)
    );
    let same = store.update_card(2, text("q2"), text("a2"), 1, Some(text("same key")), None);
    assert_eq!(same, Ok(()));
    let missing = Err(StoreError::NotFound);
    assert_eq!(store.update_card(2, text("q"), text("a"), 9, None, None), missing);
    assert_eq!(store.update_card(2, text("q"), text("a"), 1, None, Some(9)), missing);
    assert_eq!(store.update_card(77, text("q1"), text("a1"), 1, None, None), Ok(()));
    let cards = store.get_cards(1);
    assert_eq!(questions(&cards), vec!["q1", "q2"]);
    assert_eq!(cards[1].title, "same key");
}

#[test]
fn delete_card_removes_one_card_and_ignores_unknown_ids() {
    let mut store = CardStore::new();
    store.add_card(text("q1"), text("a1"), 1, None, None).unwrap();
    store.add_card(text("q2"), text("a2"), 1, None, None).unwrap();
    store.add_card(text("q3"), text("a3"), 1, None, None).unwrap();
    store.delete_card(2);
    assert_eq!(questions(&store.get_cards(1)), vec!["q1", "q3"]);
    store.delete_card(2);
    store.delete_card(99);
    assert_eq!(questions(&store.get_cards(1)), vec!["q1", "q3"]);
    store.add_card(text("q2"), text("a2"), 1, None, None).unwrap();
    let cards = store.get_cards(1);
    assert_eq!(cards.iter().map(|c| c.id).collect::<Vec<_>>(), vec![1, 3, 4]);
}

#[test]
fn skipped_flags_are_set_and_cleared() {
    let mut store = CardStore::new();
    let other = store.create_collection(text("Other")).unwrap();
    store.add_card(text("q1"), text("a1"), 1, None, None).unwrap();
    store.add_card(text("q2"), text("a2"), 1, None, None).unwrap();
    store.add_card(text("q3"), text("a3"), other.id, None, None).unwrap();
    store.set_card_skipped(1, true);
    store.set_card_skipped(3, true);
    store.set_card_skipped(50, true);
    assert_eq!(store.get_cards(1).iter().map(|c| c.skipped).collect::<Vec<_>>(), vec![true, false]);
    store.set_card_skipped(2, true);
    store.set_card_skipped(1, false);
    assert_eq!(store.get_cards(1).iter().map(|c| c.skipped).collect::<Vec<_>>(), vec![false, true]);
    store.set_card_skipped(1, true);
    store.clear_skipped_for_collection(1);
    assert!(store.get_cards(1).iter().all(|c| !c.skipped));
    assert!(store.get_cards(other.id)[0].skipped);
    store.clear_skipped_for_collection(other.id);
    assert!(!store.get_cards(other.id)[0].skipped);
}

#[test]
fn from_rows_accepts_what_a_store_holds() {
    let mut store = CardStore::new();
    let c = store.create_collection(text("Spanish")).unwrap();
    let g = store.create_sub_collection(c.id, text("Greetings")).unwrap();
    store.add_card(text("hola"), text("hello"), c.id, None, Some(g.id)).unwrap();
    store.add_card(text("gato"), text("cat"), c.id, None, None).unwrap();
    store.delete_card(1);
    let collections = store
        .collections()
        .iter()
        .map(|r| card_store::model::StoredCollection { id: r.id, name: r.name.clone() })
        .collect();
    let subs = store
        .sub_collections()
        .iter()
        .map(|r| card_store::model::StoredSubCollection {
            id: r.id,
            name: r.name.clone(),
            collection_id: r.collection_id,
        })
        .collect();
    let cards = store
        .cards()
        .iter()
        .map(|r| card_store::model::CardRow {
            id: r.id,
            question: r.question.clone(),
            answer: r.answer.clone(),
            title: r.title.clone(),
            skipped: r.skipped,
            collection_id: r.collection_id,
            sub_collection_id: r.sub_collection_id,
        })
        .collect();
    let (lc, ls, lk) = store.last_ids();
    let mut copy = CardStore::from_rows(collections, subs, cards, lc, ls, lk).unwrap();
    assert_eq!(copy.last_ids(), (2, 3, 2));
    assert_eq!(questions(&copy.get_cards(c.id)), vec!["gato"]);
    copy.add_card(text("perro"), text("dog"), c.id, None, None).unwrap();
    assert_eq!(copy.get_cards(c.id)[1].id, 3);
}

fn carries_white_space(c: char) -> bool {
    let u = c as u32;
    (0x09..=0x0d).contains(&u)
        || u == 0x20
        || u == 0x85
        || u == 0xa0
        || u == 0x1680
        || (0x2000..=0x200a).contains(&u)
        || u == 0x2028
        || u == 0x2029
        || u == 0x202f
        || u == 0x205f
        || u == 0x3000
}

#[test]
fn names_are_trimmed_of_white_space_and_of_nothing_else() {
    let mut code: u32 = 0;
    while code <= 0x10ffff {
        if let Some(c) = char::from_u32(code) {
            let mut store = CardStore::new();
            let name = format!("{}x{}", c, c);
            let id = store.get_or_create_sub_collection(1, &name).unwrap();
            let stored = store.sub_collections()[(id - 1) as usize].name.clone();
            if carries_white_space(c) {
                assert_eq!(stored, "x", "U+{:04X}", code);
            } else {
                assert_eq!(stored, name, "U+{:04X}", code);
            }
        }
        code += if code < 0x3100 { 1 } else { 61 };
    }
}

#[test]
fn names_are_ordered_by_code_point() {
    let mut store = CardStore::new();
    let names =
        ["\u{10000}", "\u{ffff}", "\u{100}", "\u{ff}", "z", "a\u{0}", "a", "Z", "\u{7f}", "aa"];
    for name in names {
        store.create_sub_collection(1, name.to_string()).unwrap();
    }
    let listed: Vec<String> = store.get_sub_collections(1).into_iter().map(|s| s.name).collect();
    assert_eq!(
        listed,
        vec!["Z", "a", "a\u{0}", "aa", "z", "\u{7f}", "\u{ff}", "\u{100}", "\u{ffff}", "\u{10000}"]
    );
}

#[test]
fn reserved_name_matches_ascii_letters_only() {
    let mut store = CardStore::new();
    assert_eq!(
        store.create_sub_collection(1, text("- NoNE -")).unwrap_err(),
        StoreError::ReservedName
    );
    assert!(store.create_sub_collection(1, text("- N\u{4f}ne -")).is_err());
    assert!(store.create_sub_collection(1, text("- \u{ff2e}one -")).is_ok());
    assert!(store.create_sub_collection(1, text("- None")).is_ok());
    assert!(store.create_sub_collection(1, text("\u{2013} None \u{2013}")).is_ok());
}
