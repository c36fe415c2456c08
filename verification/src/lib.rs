//! A verified flashcard store: collections of question/answer cards, grouped
//! into sub-collections, with a portable export document and an import
//! reconciler that never duplicates what is already stored.

pub mod encoding;
pub mod export;
pub mod failure;
pub mod files;
pub mod growth;
pub mod import;
pub mod import_laws;
pub mod invariants;
pub mod laws;
pub mod model;
pub mod order;
pub mod round_trip;
pub mod rows;
pub mod state;
pub mod store;
pub mod text;
