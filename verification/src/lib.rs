//! A document pipeline for Markdown with embedded `{% ... %}` tags: text is
//! tokenized, built into a tree, resolved against variables and functions,
//! transformed by a schema into a render tree, and written out as HTML.
//!
//! - [`tokenize`] gives the events of a document; [`embed`] finds the tags among them,
//!   and [`nesting`] says how their start and end events stand to each other.
//! - [`tag`] is the grammar of tags; [`scan`] and [`template`] find tags in plain text.
//! - [`parse`] builds the tree; [`invariants`] and [`containers`] state what holds of it.
//! - [`resolve`] gives expressions their values.
//! - [`transform`] and [`schema`] make the render tree; [`render`] writes it.
//! - [`model`] holds the types of all of these, and [`text`] the work on bytes.

pub mod containers;
pub mod embed;
pub mod invariants;
pub mod model;
pub mod nesting;
pub mod parse;
pub mod render;
pub mod resolve;
pub mod scan;
pub mod schema;
pub mod tag;
pub mod template;
pub mod text;
pub mod tokenize;
pub mod transform;
