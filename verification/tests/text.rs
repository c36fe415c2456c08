use card_store::encoding::read_file_base64;
use card_store::failure::{map_unique_constraint, StorageFailure};
use card_store::files::{
    count_files_in_directory, extensions_for_format, extensions_for_lowercase,
    list_files_in_directory, matches_extensions, FileEntry,
};
use card_store::model::{Named, StoreError};
use card_store::order::order_by_name;
use card_store::text::holds_name;

fn entry(path: &str, extension: Option<&str>) -> FileEntry {
    FileEntry { path: Some(path.to_string()), extension: extension.map(|e| e.to_string()) }
}

#[test]
fn extensions_for_format_lowers_the_case() {
    assert_eq!(extensions_for_format("png"), vec!["png"]);
    assert_eq!(extensions_for_format("PNG"), vec!["png"]);
    assert_eq!(extensions_for_format("Tiff"), vec!["tiff"]);
    assert_eq!(extensions_for_format(""), vec![""]);
}

#[test]
fn jpeg_stands_for_jpg_and_jpeg() {
    assert_eq!(extensions_for_format("jpeg"), vec!["jpg", "jpeg"]);
    assert_eq!(extensions_for_format("JPEG"), vec!["jpg", "jpeg"]);
    assert_eq!(extensions_for_format("jpg"), vec!["jpg"]);
    assert_eq!(extensions_for_lowercase("jpeg".to_string()), vec!["jpg", "jpeg"]);
    assert_eq!(extensions_for_lowercase("JPEG".to_string()), vec!["JPEG"]);
}

#[test]
fn files_match_by_extension_in_any_case() {
    let extensions = extensions_for_format("jpeg");
    assert!(matches_extensions(&extensions, &entry("/d/a.jpg", Some("jpg"))));
    assert!(matches_extensions(&extensions, &entry("/d/a.JPG", Some("JPG"))));
    assert!(matches_extensions(&extensions, &entry("/d/a.Jpeg", Some("Jpeg"))));
    assert!(!matches_extensions(&extensions, &entry("/d/a.png", Some("png"))));
    assert!(!matches_extensions(&extensions, &entry("/d/jpg", None)));
}

#[test]
fn count_files_counts_the_matching_ones() {
    let files = vec![
        entry("/d/b.png", Some("png")),
        entry("/d/a.PNG", Some("PNG")),
        entry("/d/c.jpg", Some("jpg")),
        entry("/d/readme", None),
        FileEntry { path: None, extension: Some("png".to_string()) },
    ];
    assert_eq!(count_files_in_directory(&files, "png"), 3);
    assert_eq!(count_files_in_directory(&files, "Png"), 3);
    assert_eq!(count_files_in_directory(&files, "jpeg"), 1);
    assert_eq!(count_files_in_directory(&files, "gif"), 0);
    assert_eq!(count_files_in_directory(&vec![], "png"), 0);
}

#[test]
fn list_files_lists_the_matching_paths_in_order() {
    let files = vec![
        entry("/d/b.png", Some("png")),
        entry("/d/a.PNG", Some("PNG")),
        entry("/d/c.jpg", Some("jpg")),
        entry("/d/B.png", Some("png")),
        entry("/d/readme", None),
        FileEntry { path: None, extension: Some("png".to_string()) },
    ];
    assert_eq!(list_files_in_directory(&files, "png"), vec!["/d/B.png", "/d/a.PNG", "/d/b.png"]);
    assert_eq!(list_files_in_directory(&files, "JPEG"), vec!["/d/c.jpg"]);
    assert!(list_files_in_directory(&files, "gif").is_empty());
}

#[test]
fn order_by_name_arranges_positions() {
    let names: Vec<String> = ["pear", "apple", "fig", "apple", "", "Fig", "apples"]
        .iter()
        .map(|s| s.to_string())
        .collect();
    assert_eq!(order_by_name(&names), vec![4, 5, 1, 3, 6, 2, 0]);
    assert!(order_by_name(&vec![]).is_empty());
}

#[test]
fn holds_name_finds_exact_names() {
    let names: Vec<String> = ["a", "b"].iter().map(|s| s.to_string()).collect();
    assert!(holds_name(&names, &"a".to_string()));
    assert!(!holds_name(&names, &"A".to_string()));
    assert!(!holds_name(&vec![], &"a".to_string()));
}

#[test]
fn uniqueness_failures_read_as_duplicate_cards() {
    let friendly = "A card with this question and answer already exists in this sub-collection.";
    let e = StorageFailure {
        engine_message: Some("UNIQUE constraint failed: cards.collection_id".to_string()),
        description: "UNIQUE constraint failed: cards.collection_id".to_string(),
    };
    assert_eq!(map_unique_constraint(&e), friendly);
    let e = StorageFailure {
        engine_message: Some("columns are not unique".to_string()),
        description: "columns are not unique".to_string(),
    };
    assert_eq!(map_unique_constraint(&e), friendly);
}

#[test]
fn other_failures_keep_their_text() {
    let e = StorageFailure {
        engine_message: Some("database is locked".to_string()),
        description: "database is locked".to_string(),
    };
    assert_eq!(map_unique_constraint(&e), "database is locked");
    let e = StorageFailure {
        engine_message: Some("Unique".to_string()),
        description: "mixed case".to_string(),
    };
    assert_eq!(map_unique_constraint(&e), "mixed case");
    let e = StorageFailure {
        engine_message: None,
        description: "UNIQUE but not from the engine".to_string(),
    };
    assert_eq!(map_unique_constraint(&e), "UNIQUE but not from the engine");
}

#[test]
fn every_failure_has_its_message() {
    assert_eq!(
        StoreError::InvalidName(Named::Collection).message(),
        "Collection name cannot be empty"
    );
    assert_eq!(
        StoreError::InvalidName(Named::SubCollection).message(),
        "Sub collection name cannot be empty"
    );
    assert_eq!(StoreError::ReservedName.message(), "That name is reserved for internal use.");
    assert_eq!(
        StoreError::DuplicateCard.message(),
        "A card with this question and answer already exists in this sub-collection."
    );
    assert_eq!(StoreError::NameTaken.message(), "That name is already in use.");
    assert_eq!(StoreError::NotFound.message(), "Collection not found");
    assert_eq!(
        StoreError::InvalidDestination.message(),
        "Specify an existing collection or a new collection name"
    );
    assert_eq!(StoreError::InvalidIndex.message(), "Invalid collection index");
    assert_eq!(StoreError::StoreFull.message(), "The store is full.");
    assert_eq!(StoreError::TooLarge.message(), "The export file is too large.");
    assert_eq!(StoreError::Inconsistent.message(), "The card database is inconsistent");
}

#[test]
fn file_contents_are_encoded_in_base64() {
    assert_eq!(read_file_base64(b""), Some(String::new()));
    assert_eq!(read_file_base64(b"f"), Some("Zg==".to_string()));
    assert_eq!(read_file_base64(b"fo"), Some("Zm8=".to_string()));
    assert_eq!(read_file_base64(b"hello"), Some("aGVsbG8=".to_string()));
    assert_eq!(read_file_base64(&[0xfb, 0xff, 0xbf]), Some("+/+/".to_string()));
}
