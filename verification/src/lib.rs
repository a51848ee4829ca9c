//! Rewrites the internal links of a document tree to root-relative paths.

pub mod classify;
pub mod corpus;
pub mod document;
pub mod error;
pub mod path;
pub mod rewrite;
pub mod text;
