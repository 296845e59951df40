//! The data model: attribute values, tree nodes, schemas and render trees.

pub mod node;
pub mod render;
pub mod schema;
pub mod slots;
pub mod value;
