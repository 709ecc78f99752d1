//! An outline-style plain-text editor core.
//!
//! A document is a flat sequence of indentation-tagged lines that forms an
//! implicit tree: the parent of a line is the nearest preceding line with a
//! strictly smaller indent. The crate provides the document model with its
//! structural queries and mutations, a caret/selection model, a small inline
//! markup parser, and the edit orchestrator that maps discrete editing
//! commands to model mutations.

pub mod edit;
pub mod inline;
pub mod laws;
pub mod model;
pub mod scan;
