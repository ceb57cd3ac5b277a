//! An embedded, schema-less document store with JSON values.
//!
//! Documents live in collections; every collection keeps, per field, a sorted
//! list of `(value, document id)` pairs that answers equality and range
//! queries by binary search. The store works on an image of its directory
//! tree, so every operation is a function from the tree before to the tree
//! after and can be stated and proved as such.

pub mod error;
pub mod value;
pub mod json;
pub mod text;
pub mod disk;
pub mod db;
pub mod collection;
pub mod document;
pub mod query;
pub mod index;
pub mod laws;
pub mod database;
pub mod models;
pub mod chat;
pub mod outside;
