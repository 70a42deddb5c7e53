//! Request and response payloads of the service boundary, and the crate's
//! error taxonomy.
//!
//! The transport itself (framing, method dispatch) is outside the crate;
//! these are the plain values that cross its boundary.

use vstd::prelude::*;

use crate::text::{Position, Range};

verus! {

/// Parameters of the handshake request.
#[derive(Clone, Debug, PartialEq, Eq)]
pub struct InitializeParams {
    pub client_name: String,
}

/// Answer to the handshake request.
#[derive(Clone, Debug, PartialEq, Eq)]
pub struct InitializeResponse {
    pub server_version: String,
}

/// Parameters of a context query: a source text, a cursor position inside
/// it, and limits on the answer.
#[derive(Clone, Debug, PartialEq)]
pub struct ContextAtPositionParams {
    pub uri: String,
    pub content: String,
    pub position: Position,
    pub max_chars: usize,
    pub context_range: Option<Range>,
}

/// One snippet of the answer: the defining file, the full symbol string,
/// and the snippet text.  Two snippets are the same element of a result
/// set iff all three fields agree.
#[derive(Clone, Debug, PartialEq, Eq, Hash)]
pub struct SymbolContextSnippet {
    pub file_name: String,
    pub symbol: String,
    pub content: String,
}

/// A whole-file snippet; a placeholder slot of the response, always
/// unused by this crate.
#[derive(Clone, Debug, PartialEq, Eq)]
pub struct FileContextSnippet {
    pub file_name: String,
    pub content: String,
}

/// The answer to a context query.  `files` is a placeholder for an
/// unrelated feature and is always empty.
#[derive(Clone, Debug, PartialEq, Eq)]
pub struct ContextAtPositionResponse {
    pub symbols: Vec<SymbolContextSnippet>,
    pub files: Vec<FileContextSnippet>,
}

/// Parameters of the shutdown request.
#[derive(Clone, Debug, PartialEq, Eq)]
pub struct ShutdownParams {
    pub client_name: String,
}

/// Notification that the tracked revision of a repository changed; the
/// service rebuilds that repository's index in response.
#[derive(Clone, Debug, PartialEq, Eq)]
pub struct GitRevisionDidChangeParams {
    pub git_directory_uri: String,
}

/// Failures that cross the crate's boundary.  Both point at the grammar
/// or query configuration, not at user input: anything malformed inside a
/// repository is skipped instead.
#[derive(Clone, Copy, Debug, PartialEq, Eq, Structural)]
pub enum ContextError {
    /// The grammar could not parse the request content at all.
    Parse,
    /// A query pattern failed to compile against the grammar.
    Query,
}

impl ContextError {
    /// A short description, for the service layer's logging.
    pub fn message(&self) -> (r: &'static str)
        ensures
            *self is Parse ==> r@ == "failed to parse content"@,
            *self is Query ==> r@ == "query does not match the grammar"@,
    {
        match self {
            ContextError::Parse => "failed to parse content",
            ContextError::Query => "query does not match the grammar",
        }
    }
}

} // verus!
