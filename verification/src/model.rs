//! The rows of the store, the portable export document, and the
//! mathematical view of each.

use vstd::prelude::*;

verus! {

/// A top-level grouping of cards.
#[derive(Debug)]
pub struct StoredCollection {
    pub id: i64,
    pub name: String,
}

/// What a [`StoredCollection`] is in contracts.
pub struct CollectionView {
    pub id: i64,
    pub name: Seq<char>,
}

impl View for StoredCollection {
    type V = CollectionView;

    open spec fn view(&self) -> CollectionView {
        CollectionView { id: self.id, name: self.name@ }
    }
}

impl DeepView for StoredCollection {
    type V = CollectionView;

    open spec fn deep_view(&self) -> CollectionView {
        self@
    }
}

/// A second-level grouping inside one collection.
#[derive(Debug)]
pub struct StoredSubCollection {
    pub id: i64,
    pub name: String,
    pub collection_id: i64,
}

/// What a [`StoredSubCollection`] is in contracts.
pub struct SubCollectionView {
    pub id: i64,
    pub name: Seq<char>,
    pub collection_id: i64,
}

impl View for StoredSubCollection {
    type V = SubCollectionView;

    open spec fn view(&self) -> SubCollectionView {
        SubCollectionView { id: self.id, name: self.name@, collection_id: self.collection_id }
    }
}

impl DeepView for StoredSubCollection {
    type V = SubCollectionView;

    open spec fn deep_view(&self) -> SubCollectionView {
        self@
    }
}

/// A card as the store keeps it: every card names its collection and one
/// sub-collection of that collection.
#[derive(Debug)]
pub struct CardRow {
    pub id: i64,
    pub question: String,
    pub answer: String,
    pub title: String,
    pub skipped: bool,
    pub collection_id: i64,
    pub sub_collection_id: i64,
}

/// What a [`CardRow`] is in contracts.
pub struct CardView {
    pub id: i64,
    pub question: Seq<char>,
    pub answer: Seq<char>,
    pub title: Seq<char>,
    pub skipped: bool,
    pub collection_id: i64,
    pub sub_collection_id: i64,
}

impl View for CardRow {
    type V = CardView;

    open spec fn view(&self) -> CardView {
        CardView {
            id: self.id,
            question: self.question@,
            answer: self.answer@,
            title: self.title@,
            skipped: self.skipped,
            collection_id: self.collection_id,
            sub_collection_id: self.sub_collection_id,
        }
    }
}

impl DeepView for CardRow {
    type V = CardView;

    open spec fn deep_view(&self) -> CardView {
        self@
    }
}

/// A card as a listing of one collection hands it out.
#[derive(Debug)]
pub struct StoredCard {
    pub id: i64,
    pub question: String,
    pub answer: String,
    pub title: String,
    pub skipped: bool,
    pub sub_collection_id: Option<i64>,
}

/// What a [`StoredCard`] is in contracts.
pub struct StoredCardView {
    pub id: i64,
    pub question: Seq<char>,
    pub answer: Seq<char>,
    pub title: Seq<char>,
    pub skipped: bool,
    pub sub_collection_id: Option<i64>,
}

impl View for StoredCard {
    type V = StoredCardView;

    open spec fn view(&self) -> StoredCardView {
        StoredCardView {
            id: self.id,
            question: self.question@,
            answer: self.answer@,
            title: self.title@,
            skipped: self.skipped,
            sub_collection_id: self.sub_collection_id,
        }
    }
}

impl DeepView for StoredCard {
    type V = StoredCardView;

    open spec fn deep_view(&self) -> StoredCardView {
        self@
    }
}

/// A card of an export document: no id, no skipped flag, and its
/// sub-collection by name.
#[derive(Debug)]
pub struct ExportCard {
    pub question: String,
    pub answer: String,
    pub title: String,
    pub sub_collection_name: Option<String>,
}

/// What an [`ExportCard`] is in contracts.
pub struct ExportCardView {
    pub question: Seq<char>,
    pub answer: Seq<char>,
    pub title: Seq<char>,
    pub sub_collection_name: Option<Seq<char>>,
}

impl View for ExportCard {
    type V = ExportCardView;

    open spec fn view(&self) -> ExportCardView {
        ExportCardView {
            question: self.question@,
            answer: self.answer@,
            title: self.title@,
            sub_collection_name: match self.sub_collection_name {
                Some(n) => Some(n@),
                None => None,
            },
        }
    }
}

impl DeepView for ExportCard {
    type V = ExportCardView;

    open spec fn deep_view(&self) -> ExportCardView {
        self@
    }
}

/// A sub-collection of an export document: its name alone.
#[derive(Debug)]
pub struct ExportSubCollection {
    pub name: String,
}

impl View for ExportSubCollection {
    type V = Seq<char>;

    open spec fn view(&self) -> Seq<char> {
        self.name@
    }
}

impl DeepView for ExportSubCollection {
    type V = Seq<char>;

    open spec fn deep_view(&self) -> Seq<char> {
        self@
    }
}

/// One collection of an export document.
#[derive(Debug)]
pub struct ExportCollection {
    pub name: String,
    pub sub_collections: Vec<ExportSubCollection>,
    pub cards: Vec<ExportCard>,
}

/// What an [`ExportCollection`] is in contracts.
pub struct ExportCollectionView {
    pub name: Seq<char>,
    pub sub_collections: Seq<Seq<char>>,
    pub cards: Seq<ExportCardView>,
}

impl View for ExportCollection {
    type V = ExportCollectionView;

    open spec fn view(&self) -> ExportCollectionView {
        ExportCollectionView {
            name: self.name@,
            sub_collections: self.sub_collections.deep_view(),
            cards: self.cards.deep_view(),
        }
    }
}

impl DeepView for ExportCollection {
    type V = ExportCollectionView;

    open spec fn deep_view(&self) -> ExportCollectionView {
        self@
    }
}

/// An export document: the collections it carries, in order.
#[derive(Debug)]
pub struct ExportData {
    pub collections: Vec<ExportCollection>,
}

impl View for ExportData {
    type V = Seq<ExportCollectionView>;

    open spec fn view(&self) -> Seq<ExportCollectionView> {
        self.collections.deep_view()
    }
}

/// What an import did.
#[derive(Debug, Clone, Copy, PartialEq, Eq, Structural)]
pub struct ImportResult {
    pub collections: u32,
    pub cards_added: u32,
}

/// One collection of an export document, counted.
#[derive(Debug)]
pub struct FileCollectionSummary {
    pub name: String,
    pub card_count: u32,
    pub sub_collection_count: u32,
}

/// What a [`FileCollectionSummary`] is in contracts.
pub struct FileCollectionSummaryView {
    pub name: Seq<char>,
    pub card_count: u32,
    pub sub_collection_count: u32,
}

impl View for FileCollectionSummary {
    type V = FileCollectionSummaryView;

    open spec fn view(&self) -> FileCollectionSummaryView {
        FileCollectionSummaryView {
            name: self.name@,
            card_count: self.card_count,
            sub_collection_count: self.sub_collection_count,
        }
    }
}

impl DeepView for FileCollectionSummary {
    type V = FileCollectionSummaryView;

    open spec fn deep_view(&self) -> FileCollectionSummaryView {
        self@
    }
}

/// What a name names.
#[derive(Debug, Clone, Copy, PartialEq, Eq, Structural)]
pub enum Named {
    Collection,
    SubCollection,
}

/// Why an operation of the store did not go through.
#[derive(Debug, Clone, Copy, PartialEq, Eq, Structural)]
pub enum StoreError {
    /// The name of a collection or of a sub-collection is empty once
    /// trimmed.
    InvalidName(Named),
    /// A sub-collection name collides with the reserved one.
    ReservedName,
    /// The card's collection, sub-collection, question and answer are
    /// already stored together.
    DuplicateCard,
    /// A collection or sub-collection of that name is already stored.
    NameTaken,
    /// No collection, or no sub-collection of the collection, has that id.
    NotFound,
    /// An import names no usable destination.
    InvalidDestination,
    /// An export document has no collection at that index.
    InvalidIndex,
    /// The ids of a table are used up.
    StoreFull,
    /// A document holds more cards, sub-collections or collections than a
    /// 32-bit count can tell.
    TooLarge,
    /// Rows that come from outside do not make up a well-formed store.
    Inconsistent,
}

} // verus!
