//! Symbol-index and context-resolution core of a code-context service.
//!
//! The crate builds an in-memory symbol index over the files of a source
//! tree and answers "what code is relevant here" queries: given a snippet
//! of code and a cursor position inside it, it returns a deduplicated set
//! of source snippets for every symbol syntactically related to the
//! identifier under the cursor, expanding outward through a bounded number
//! of reference hops.

pub mod text;

pub mod types;

pub mod query;

pub mod store;

pub mod symbol;

pub mod document;

pub mod index;

pub mod runner;

pub mod context;

pub mod laws;
