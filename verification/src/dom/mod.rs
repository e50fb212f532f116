//! A virtual document: a tree of elements and text.
pub mod attribute;
pub mod node;
pub mod document;
pub mod builder;
pub mod printer;
pub mod select;
pub mod edge;
