//! Parsing and resolution of annotated ticket documents.
//!
//! A document holds ticket blocks separated by `---`; each block holds a
//! title and, after `===`, a description. Titles carry inline annotations
//! (`#tag`, `@user`, `~1d2h`, `!urgency`) that are resolved against catalog
//! snapshots and stripped from the visible text.
pub mod text;
pub mod grammar;
pub mod catalog;
pub mod document;
pub mod ticket;
pub mod reconcile;
pub mod laws;
