use card_store::import::read_export_file;
use card_store::model::{
    ExportCard, ExportCollection, ExportData, ExportSubCollection, ImportResult, StoreError,
};
use card_store::store::CardStore;

fn text(s: &str) -> String {
    s.to_string()
}

fn export_card(q: &str, a: &str, title: &str, sub: Option<&str>) -> ExportCard {
    ExportCard {
        question: text(q),
        answer: text(a),
        title: text(title),
        sub_collection_name: sub.map(text),
    }
}

fn export_collection(name: &str, subs: &[&str], cards: Vec<ExportCard>) -> ExportCollection {
    ExportCollection {
        name: text(name),
        sub_collections: subs.iter().map(|s| ExportSubCollection { name: text(s) }).collect(),
        cards,
    }
}

fn spanish() -> (CardStore, i64) {
    let mut store = CardStore::new();
    let c = store.create_collection(text("Spanish")).unwrap();
    let g = store.create_sub_collection(c.id, text("Greetings")).unwrap();
    store.add_card(text("hola"), text("hello"), c.id, None, Some(g.id)).unwrap();
    store.add_card(text("gato"), text("cat"), c.id, None, None).unwrap();
    (store, c.id)
}

type CardShape = (String, String, String, Option<String>);

fn shape(data: &ExportData) -> Vec<(String, Vec<String>, Vec<CardShape>)> {
    data.collections
        .iter()
        .map(|c| {
            (
                c.name.clone(),
                c.sub_collections.iter().map(|s| s.name.clone()).collect(),
                c.cards
                    .iter()
                    .map(|k| {
                        (
                            k.question.clone(),
                            k.answer.clone(),
                            k.title.clone(),
                            k.sub_collection_name.clone(),
                        )
                    })
                    .collect(),
            )
        })
        .collect()
}

#[test]
fn export_names_sub_collections_but_the_reserved_one() {
    let (store, id) = spanish();
    let data = store.export_collection(id).unwrap();
    assert_eq!(
        shape(&data),
        vec![(
            text("Spanish"),
            vec![text("Greetings")],
            vec![
                (text("hola"), text("hello"), text(""), Some(text("Greetings"))),
                (text("gato"), text("cat"), text(""), None),
            ]
        )]
    );
}

#[test]
fn export_of_an_unknown_collection_is_not_found() {
    let (store, _) = spanish();
    assert_eq!(store.export_collection(9).unwrap_err(), StoreError::NotFound);
}

#[test]
fn export_lists_sub_collections_by_name_and_cards_by_id() {
    let mut store = CardStore::new();
    let z = store.create_sub_collection(1, text("Zoo")).unwrap();
    let a = store.create_sub_collection(1, text("Art")).unwrap();
    store.add_card(text("q3"), text("a"), 1, Some(text("t3")), Some(z.id)).unwrap();
    store.add_card(text("q1"), text("a"), 1, Some(text("t1")), None).unwrap();
    store.add_card(text("q2"), text("a"), 1, Some(text("t2")), Some(a.id)).unwrap();
    let data = store.export_collection(1).unwrap();
    assert_eq!(
        shape(&data),
        vec![(
            text("Default"),
            vec![text("Art"), text("Zoo")],
            vec![
                (text("q3"), text("a"), text("t3"), Some(text("Zoo"))),
                (text("q1"), text("a"), text("t1"), None),
                (text("q2"), text("a"), text("t2"), Some(text("Art"))),
            ]
        )]
    );
}

#[test]
fn export_collections_lists_collections_by_name() {
    let (mut store, spanish_id) = spanish();
    store.create_collection(text("French")).unwrap();
    store.add_card(text("q"), text("a"), 1, None, None).unwrap();
    let data = store.export_collections();
    let names: Vec<&str> = data.collections.iter().map(|c| c.name.as_str()).collect();
    assert_eq!(names, vec!["Default", "French", "Spanish"]);
    assert_eq!(data.collections[0].cards.len(), 1);
    assert!(data.collections[1].cards.is_empty());
    let one = store.export_collection(spanish_id).unwrap();
    assert_eq!(shape(&one)[0], shape(&data)[2]);
}

#[test]
fn read_export_file_counts_cards_and_sub_collections() {
    let data = ExportData {
        collections: vec![
            export_collection(
                " Spanish ",
                &["Greetings", "", "Verbs"],
                vec![
                    export_card("hola", "hello", "", Some("Greetings")),
                    export_card("gato", "cat", "", None),
                ],
            ),
            export_collection("Empty", &[], vec![]),
        ],
    };
    let summary = read_export_file(&data).unwrap();
    assert_eq!(summary.len(), 2);
    assert_eq!(summary[0].name, " Spanish ");
    assert_eq!(summary[0].card_count, 2);
    assert_eq!(summary[0].sub_collection_count, 3);
    assert_eq!(summary[1].name, "Empty");
    assert_eq!(summary[1].card_count, 0);
    assert_eq!(summary[1].sub_collection_count, 0);
    assert!(read_export_file(&ExportData { collections: vec![] }).unwrap().is_empty());
}

#[test]
fn spanish_is_copied_into_spanish_copy() {
    let (mut store, id) = spanish();
    let data = store.export_collection(id).unwrap();
    let result = store.import_collection(&data, 0, None, Some(text("Spanish Copy"))).unwrap();
    assert_eq!(result, ImportResult { collections: 1, cards_added: 2 });
    let copy = store.collection_named(&text("Spanish Copy")).unwrap();
    assert_eq!(copy, 3);
    let subs = store.get_sub_collections(copy);
    assert_eq!(subs.len(), 1);
    assert_eq!(subs[0].name, "Greetings");
    assert_eq!(subs[0].collection_id, copy);
    let cards = store.get_cards(copy);
    assert_eq!(cards.len(), 2);
    assert_eq!((cards[0].question.as_str(), cards[0].answer.as_str()), ("hola", "hello"));
    assert_eq!(cards[0].sub_collection_id, Some(subs[0].id));
    assert_eq!((cards[1].question.as_str(), cards[1].answer.as_str()), ("gato", "cat"));
    assert_eq!(cards[1].sub_collection_id, Some(store.get_null_sub_collection_id(copy).unwrap()));
    assert_ne!(cards[1].sub_collection_id, Some(store.get_null_sub_collection_id(id).unwrap()));
    assert_eq!(store.get_cards(id).len(), 2);
}

#[test]
fn round_trip_keeps_cards_and_sub_collection_names() {
    let mut store = CardStore::new();
    let c = store.create_collection(text("Source")).unwrap();
    let mut sub_ids = Vec::new();
    for name in ["delta", "alpha", "charlie", "bravo"] {
        sub_ids.push(store.create_sub_collection(c.id, text(name)).unwrap().id);
    }
    for i in 0..12usize {
        let sub = if i % 5 == 4 { None } else { Some(sub_ids[i % 4]) };
        let title = format!("t{}", i);
        store
            .add_card(format!("q{}", i % 3), format!("a{}", i), c.id, Some(title), sub)
            .unwrap();
    }
    let data = store.export_collection(c.id).unwrap();
    let result = store.import_collection(&data, 0, None, Some(text("Copy"))).unwrap();
    assert_eq!(result, ImportResult { collections: 1, cards_added: 12 });
    let copy = store.collection_named(&text("Copy")).unwrap();
    let again = store.export_collection(copy).unwrap();
    assert_eq!(shape(&again)[0].1, shape(&data)[0].1);
    assert_eq!(shape(&again)[0].2, shape(&data)[0].2);
    assert_eq!(shape(&again)[0].1, vec!["alpha", "bravo", "charlie", "delta"]);
    assert_eq!(store.get_cards(copy).len(), 12);
    assert_eq!(store.get_sub_collections(copy).len(), 4);
}

#[test]
fn round_trip_keeps_the_text_of_cards_as_it_is() {
    let mut store = CardStore::new();
    store.add_card(text("x"), text("y"), 1, Some(text(" t ")), None).unwrap();
    store.add_card(text(" x"), text("y"), 1, None, None).unwrap();
    store.add_card(text("x"), text("y\n"), 1, None, None).unwrap();
    let data = store.export_collection(1).unwrap();
    let result = store.import_collection(&data, 0, None, Some(text("Copy"))).unwrap();
    assert_eq!(result, ImportResult { collections: 1, cards_added: 3 });
    let copy = store.collection_named(&text("Copy")).unwrap();
    let cards = store.get_cards(copy);
    assert_eq!(cards.len(), 3);
    assert_eq!((cards[0].question.as_str(), cards[0].answer.as_str()), ("x", "y"));
    assert_eq!(cards[0].title, " t ");
    assert_eq!((cards[1].question.as_str(), cards[1].answer.as_str()), (" x", "y"));
    assert_eq!((cards[2].question.as_str(), cards[2].answer.as_str()), ("x", "y\n"));
    assert_eq!(shape(&store.export_collection(copy).unwrap())[0].2, shape(&data)[0].2);
    assert_eq!(store.get_cards(1).len(), 3);
}

#[test]
fn imported_cards_are_stored_as_the_document_gives_them() {
    let mut store = CardStore::new();
    let data = ExportData {
        collections: vec![export_collection(
            "Default",
            &[],
            vec![export_card(" x", "y ", " t ", None), export_card("x", "y", "t", None)],
        )],
    };
    assert_eq!(
        store.import_collections(&data),
        Ok(ImportResult { collections: 1, cards_added: 2 })
    );
    let cards = store.get_cards(1);
    assert_eq!(cards[0].question, " x");
    assert_eq!(cards[0].answer, "y ");
    assert_eq!(cards[0].title, " t ");
    assert_eq!(cards[1].question, "x");
}

#[test]
fn importing_twice_adds_nothing_the_second_time() {
    let (mut store, id) = spanish();
    let data = ExportData {
        collections: vec![export_collection(
            "File",
            &["Greetings", "Animals"],
            vec![
                export_card("hola", "hello", "", Some("Greetings")),
                export_card("perro", "dog", "", Some("Animals")),
                export_card("sol", "sun", "", None),
                export_card(" sol ", "sun", "again", Some("  ")),
            ],
        )],
    };
    let first = store.import_collection(&data, 0, Some(id), None).unwrap();
    assert_eq!(first, ImportResult { collections: 1, cards_added: 3 });
    let rows = store.cards().len();
    let subs = store.sub_collections().len();
    let ids = store.last_ids();
    let second = store.import_collection(&data, 0, Some(id), None).unwrap();
    assert_eq!(second, ImportResult { collections: 1, cards_added: 0 });
    assert_eq!(store.cards().len(), rows);
    assert_eq!(store.sub_collections().len(), subs);
    assert_eq!(store.last_ids(), ids);
    assert_eq!(store.get_cards(id).len(), 5);
    let direct = store.import_into(id, &data.collections[0]);
    assert_eq!(direct, Ok(0));
}

#[test]
fn import_reuses_sub_collections_by_exact_name() {
    let (mut store, id) = spanish();
    let data = ExportData {
        collections: vec![export_collection(
            "File",
            &[" Greetings ", "greetings", "", "  ", "Greetings", "- None -", "- NONE -"],
            vec![
                export_card("a", "1", "", Some("Greetings ")),
                export_card("b", "2", "", Some("greetings")),
                export_card("c", "3", "", Some("- None -")),
                export_card("d", "4", "", Some("- NONE -")),
                export_card("e", "5", "", Some("Unlisted")),
                export_card("f", "6", "", Some("")),
            ],
        )],
    };
    let result = store.import_collection(&data, 0, Some(id), None).unwrap();
    assert_eq!(result.cards_added, 6);
    let names: Vec<String> = store.get_sub_collections(id).iter().map(|s| s.name.clone()).collect();
    assert_eq!(names, vec!["- NONE -", "Greetings", "greetings"]);
    let null_sub = store.get_null_sub_collection_id(id).unwrap();
    let of = |store: &CardStore, name: &str| store.sub_collection_named(id, &text(name));
    let cards = store.get_cards(id);
    let target = |q: &str| cards.iter().find(|c| c.question == q).unwrap().sub_collection_id;
    assert_eq!(target("a"), of(&store, "Greetings"));
    assert_eq!(target("b"), of(&store, "greetings"));
    assert_eq!(target("c"), Some(null_sub));
    assert_eq!(target("d"), of(&store, "- NONE -"));
    assert_eq!(target("e"), Some(null_sub));
    assert_eq!(target("f"), Some(null_sub));
}

#[test]
fn import_does_not_use_a_sub_collection_the_document_does_not_list() {
    let (mut store, id) = spanish();
    let data = ExportData {
        collections: vec![export_collection(
            "File",
            &[],
            vec![export_card("adios", "bye", "", Some("Greetings"))],
        )],
    };
    assert_eq!(store.import_collection(&data, 0, Some(id), None).unwrap().cards_added, 1);
    let cards = store.get_cards(id);
    assert_eq!(cards[2].sub_collection_id, Some(store.get_null_sub_collection_id(id).unwrap()));
}

#[test]
fn import_needs_exactly_one_destination() {
    let (mut store, id) = spanish();
    let data = store.export_collection(id).unwrap();
    let before = store.last_ids();
    assert_eq!(
        store.import_collection(&data, 0, None, None).unwrap_err(),
        StoreError::InvalidDestination
    );
    assert_eq!(
        store.import_collection(&data, 0, None, Some(text("  "))).unwrap_err(),
        StoreError::InvalidDestination
    );
    assert_eq!(
        store.import_collection(&data, 0, Some(id), Some(text("Both"))).unwrap_err(),
        StoreError::InvalidDestination
    );
    assert_eq!(store.last_ids(), before);
    assert_eq!(
        store.import_collection(&data, 0, Some(id), Some(text(" "))).unwrap().cards_added,
        0
    );
}

#[test]
fn import_checks_index_and_destination() {
    let (mut store, id) = spanish();
    let data = store.export_collection(id).unwrap();
    assert_eq!(
        store.import_collection(&data, 1, Some(id), None).unwrap_err(),
        StoreError::InvalidIndex
    );
    assert_eq!(
        store.import_collection(&data, 0, Some(77), None).unwrap_err(),
        StoreError::NotFound
    );
    assert_eq!(
        store.import_collection(&data, 0, None, Some(text(" Spanish "))).unwrap_err(),
        StoreError::NameTaken
    );
    assert_eq!(store.import_into(77, &data.collections[0]), Err(StoreError::NotFound));
    assert_eq!(store.get_collections().len(), 2);
}

#[test]
fn import_into_a_new_collection_trims_its_name() {
    let mut store = CardStore::new();
    let data = ExportData {
        collections: vec![export_collection(
            "Ignored",
            &[],
            vec![export_card("q", "a", "t", None)],
        )],
    };
    let result = store.import_collection(&data, 0, None, Some(text("  Fresh\n"))).unwrap();
    assert_eq!(result, ImportResult { collections: 1, cards_added: 1 });
    assert_eq!(store.collection_named(&text("Fresh")), Some(2));
    assert_eq!(store.collection_named(&text("Ignored")), None);
    assert_eq!(store.get_cards(2)[0].sub_collection_id, Some(2));
}

#[test]
fn import_collections_merges_into_collections_of_the_same_name() {
    let (mut store, id) = spanish();
    let data = ExportData {
        collections: vec![
            export_collection(
                " Spanish ",
                &["Greetings", "Animals"],
                vec![
                    export_card("hola", "hello", "", Some("Greetings")),
                    export_card("perro", "dog", "", Some("Animals")),
                ],
            ),
            export_collection("   ", &["Lost"], vec![export_card("x", "y", "", None)]),
            export_collection("French", &[], vec![export_card("chat", "cat", "", None)]),
            export_collection("spanish", &[], vec![]),
        ],
    };
    let result = store.import_collections(&data).unwrap();
    assert_eq!(result, ImportResult { collections: 3, cards_added: 2 });
    let names: Vec<String> = store.get_collections().iter().map(|c| c.name.clone()).collect();
    assert_eq!(names, vec!["Default", "French", "Spanish", "spanish"]);
    assert_eq!(store.collection_named(&text("Spanish")), Some(id));
    let cards = store.get_cards(id);
    assert_eq!(cards.len(), 3);
    assert_eq!(cards[2].question, "perro");
    assert_eq!(cards[2].sub_collection_id, store.sub_collection_named(id, &text("Animals")));
    let french = store.collection_named(&text("French")).unwrap();
    assert_eq!(store.get_cards(french).len(), 1);
    assert!(store.get_null_sub_collection_id(french).is_ok());
    let again = store.import_collections(&data).unwrap();
    assert_eq!(again, ImportResult { collections: 3, cards_added: 0 });
    assert_eq!(store.get_collections().len(), 4);
}

#[test]
fn export_of_everything_imports_into_an_empty_store() {
    let (mut source, id) = spanish();
    source.add_card(text("q"), text("a"), 1, Some(text("t")), None).unwrap();
    source.create_sub_collection(id, text("Empty")).unwrap();
    let data = source.export_collections();
    let mut target = CardStore::new();
    let result = target.import_collections(&data).unwrap();
    assert_eq!(result, ImportResult { collections: 2, cards_added: 3 });
    assert_eq!(shape(&target.export_collections()), shape(&data));
    assert_eq!(target.import_collections(&data).unwrap().cards_added, 0);
}

#[test]
fn import_of_an_empty_document_does_nothing() {
    let mut store = CardStore::new();
    let data = ExportData { collections: vec![] };
    assert_eq!(
        store.import_collections(&data),
        Ok(ImportResult { collections: 0, cards_added: 0 })
    );
    assert_eq!(store.import_collection(&data, 0, Some(1), None), Err(StoreError::InvalidIndex));
    assert_eq!(store.last_ids(), (1, 1, 0));
}

#[test]
fn a_full_table_stops_inserts() {
    let collections = vec![card_store::model::StoredCollection { id: 1, name: text("Default") }];
    let subs = vec![card_store::model::StoredSubCollection {
        id: 1,
        name: text("- None -"),
        collection_id: 1,
    }];
    let mut store =
        CardStore::from_rows(collections, subs, vec![], i64::MAX, i64::MAX, i64::MAX).unwrap();
    assert_eq!(store.add_card(text("q"), text("a"), 1, None, None), Err(StoreError::StoreFull));
    assert_eq!(store.create_collection(text("More")).unwrap_err(), StoreError::StoreFull);
    assert_eq!(store.create_sub_collection(1, text("More")).unwrap_err(), StoreError::StoreFull);
    assert_eq!(store.get_or_create_sub_collection(1, "More"), Err(StoreError::StoreFull));
    assert_eq!(store.get_or_create_sub_collection(1, "- None -"), Ok(1));
    let data = ExportData {
        collections: vec![export_collection("Default", &[], vec![export_card("q", "a", "", None)])],
    };
    assert_eq!(store.import_collections(&data), Err(StoreError::StoreFull));
}

#[test]
fn documents_of_ordinary_size_fit() {
    let data = ExportData {
        collections: vec![
            export_collection("A", &["x"], vec![export_card("q", "a", "", None)]),
            export_collection("B", &[], vec![]),
        ],
    };
    assert!(card_store::import::import_fits(&data));
    assert!(card_store::import::import_fits(&ExportData { collections: vec![] }));
}

#[test]
fn an_import_that_fails_is_undone() {
    let collections = vec![card_store::model::StoredCollection { id: 1, name: text("Default") }];
    let subs = vec![card_store::model::StoredSubCollection {
        id: 1,
        name: text("- None -"),
        collection_id: 1,
    }];
    let mut store =
        CardStore::from_rows(collections, subs, vec![], 1, 1, i64::MAX - 2).unwrap();
    let data = ExportData {
        collections: vec![
            export_collection(
                "Default",
                &["Verbs"],
                vec![export_card("q1", "a", "", Some("Verbs")), export_card("q2", "a", "", None)],
            ),
            export_collection(
                "Other",
                &["Nouns"],
                vec![export_card("q3", "a", "", None)],
            ),
        ],
    };
    assert_eq!(store.import_collections(&data), Err(StoreError::StoreFull));
    assert_eq!(store.last_ids(), (1, 1, i64::MAX - 2));
    assert_eq!(store.collections().len(), 1);
    assert_eq!(store.sub_collections().len(), 1);
    assert!(store.cards().is_empty());
    assert_eq!(
        store.import_collection(&data, 1, None, Some(text("Other"))),
        Ok(ImportResult { collections: 1, cards_added: 1 })
    );
    assert_eq!(store.import_collection(&data, 0, Some(1), None), Err(StoreError::StoreFull));
    assert_eq!(store.import_into(1, &data.collections[0]), Err(StoreError::StoreFull));
    assert_eq!(store.last_ids(), (2, 3, i64::MAX - 1));
    assert_eq!(store.sub_collections().len(), 3);
    assert_eq!(store.cards().len(), 1);
    assert_eq!(
        store.import_collection(&data, 0, None, Some(text("Third"))),
        Err(StoreError::StoreFull)
    );
    assert_eq!(store.collections().len(), 2);
    assert_eq!(store.last_ids(), (2, 3, i64::MAX - 1));
}
