//! A store of notes and todo items, kept as one JSON document.
//!
//! Records are grouped by kind; within a kind a record is identified by its
//! canonical JSON text, so a group never holds the same record twice.

pub mod clock;
pub mod data_store;
pub mod distinct_texts;
pub mod json;
pub mod text;
