//! Failures as a user reads them.

use vstd::prelude::*;
use crate::model::{Named, StoreError};
use crate::text::{contains, has_substring};

verus! {

impl StoreError {
    /// The message of this failure, as a sequence of characters.
    pub open spec fn text(self) -> Seq<char> {
        match self {
            StoreError::InvalidName(Named::Collection) => "Collection name cannot be empty"@,
            StoreError::InvalidName(Named::SubCollection) =>
                "Sub collection name cannot be empty"@,
            StoreError::ReservedName => "That name is reserved for internal use."@,
            StoreError::DuplicateCard =>
                "A card with this question and answer already exists in this sub-collection."@,
            StoreError::NameTaken => "That name is already in use."@,
            StoreError::NotFound => "Collection not found"@,
            StoreError::InvalidDestination =>
                "Specify an existing collection or a new collection name"@,
            StoreError::InvalidIndex => "Invalid collection index"@,
            StoreError::StoreFull => "The store is full."@,
            StoreError::TooLarge => "The export file is too large."@,
            StoreError::Inconsistent => "The card database is inconsistent"@,
        }
    }

    /// The message of this failure, for a user to read.
    pub fn message(&self) -> (r: String)
        ensures
            r@ == self.text(),
    {
        match self {
            StoreError::InvalidName(Named::Collection) =>
                "Collection name cannot be empty".to_owned(),
            StoreError::InvalidName(Named::SubCollection) =>
                "Sub collection name cannot be empty".to_owned(),
            StoreError::ReservedName => "That name is reserved for internal use.".to_owned(),
            StoreError::DuplicateCard => {
                "A card with this question and answer already exists in this sub-collection."
                    .to_owned()
            },
            StoreError::NameTaken => "That name is already in use.".to_owned(),
            StoreError::NotFound => "Collection not found".to_owned(),
            StoreError::InvalidDestination =>
                "Specify an existing collection or a new collection name".to_owned(),
            StoreError::InvalidIndex => "Invalid collection index".to_owned(),
            StoreError::StoreFull => "The store is full.".to_owned(),
            StoreError::TooLarge => "The export file is too large.".to_owned(),
            StoreError::Inconsistent => "The card database is inconsistent".to_owned(),
        }
    }
}

/// A failure of the storage underneath the store: the message of the
/// storage engine, where the engine itself reported the failure and gave
/// one, and the failure as text.
#[derive(Debug)]
pub struct StorageFailure {
    pub engine_message: Option<String>,
    pub description: String,
}

/// What a [`StorageFailure`] is in contracts.
pub struct StorageFailureView {
    pub engine_message: Option<Seq<char>>,
    pub description: Seq<char>,
}

impl View for StorageFailure {
    type V = StorageFailureView;

    open spec fn view(&self) -> StorageFailureView {
        StorageFailureView {
            engine_message: self.engine_message.deep_view(),
            description: self.description@,
        }
    }
}

/// The storage engine reported that a uniqueness constraint was violated.
pub open spec fn violates_uniqueness(e: StorageFailureView) -> bool {
    e.engine_message matches Some(m) && (has_substring(m, "UNIQUE"@) || has_substring(
        m,
        "unique"@,
    ))
}

/// The message for a failure of the storage: the message of
/// `DuplicateCard` where the storage engine reported a violated uniqueness
/// constraint, the failure's own text otherwise.
pub fn map_unique_constraint(e: &StorageFailure) -> (r: String)
    ensures
        r@ == if violates_uniqueness(e@) {
            StoreError::DuplicateCard.text()
        } else {
            e.description@
        },
{
    let unique = match &e.engine_message {
        Some(m) => contains(m.as_str(), "UNIQUE") || contains(m.as_str(), "unique"),
        None => false,
    };
    if unique {
        StoreError::DuplicateCard.message()
    } else {
        e.description.clone()
    }
}

} // verus!
