//! A document store for a desktop note-taking application.
//!
//! Documents are either free-form text (ordered paragraphs) or tables
//! (columns plus a row-major cell grid). The store assigns each document an
//! opaque 64-bit identifier, models the two content schemas, serializes them
//! to JSON text, and keeps an in-memory catalog of cover metadata (title,
//! category, keywords). All file-system access is left to the caller: every
//! operation here is a pure function from plain values to plain values, and
//! an operation that persists state returns the path and the exact body to
//! write.

pub mod id;
pub mod strutil;
pub mod text;
pub mod column;
pub mod table;
pub mod row;
pub mod json;
pub mod json_props;
pub mod json_round;
pub mod json_write;
pub mod json_read;
pub mod data;
pub mod store;
pub mod store_laws;
pub mod db;
pub mod saveable;
