//! An INI reader and writer.
//!
//! A document is an ordered collection of named sections, each an ordered
//! collection of key/value options. [`Parser`] holds one, fills it from text
//! and writes it back as canonical text; every function of it states what it
//! returns over the mathematical model of the document.
//!
//! - [`model`]: the model, sequences of named entries;
//! - [`grammar`]: what a text means, line by line; [`render`]: the canonical
//!   text of a document;
//! - [`ini`]: the parser itself; [`error`]: what it reports;
//! - [`scan`], [`chars`], [`text`]: reading characters and lines;
//! - [`store`]: the ordered maps that hold the document;
//! - [`laws`]: round trip, idempotent writing and order of first mention,
//!   with their proofs in [`feeding`], [`shape`], [`roundtrip`] and
//!   [`order`].

pub mod chars;
pub mod error;
pub mod feeding;
pub mod grammar;
pub mod ini;
pub mod laws;
pub mod model;
pub mod order;
pub mod render;
pub mod roundtrip;
pub mod scan;
pub mod shape;
pub mod store;
pub mod text;

pub use error::IniError;
pub use ini::Parser;
