//! The grammar query runner: one language grammar and the two query
//! patterns of this crate, with the parse-and-match step behind one
//! trusted call.
//!
//! Parsing and query matching are done by the tree-sitter library.
//! With the grammar fixed, the match list is a function of the pattern
//! text and the content alone — the same in every process and on every
//! machine — so it carries a name, `ts_matches`, and every caller's
//! contract is exact over that name.  All filtering of the matches is
//! done by the verified functions of `crate::query`.

use vstd::prelude::*;

use crate::query::{related_from_matches, related_ids, seed_ids, seeds_from_matches, QueryCapture, QueryMatchData};
use crate::text::{Position, Range};
use crate::types::ContextError;

verus! {

#[verifier::external_type_specification]
#[verifier::external_body]
pub struct ExTsQuery(tree_sitter::Query);

#[verifier::external_type_specification]
#[verifier::external_body]
pub struct ExTsTree(tree_sitter::Tree);

/// Whether a query pattern text compiles against the TypeScript
/// grammar: a function of the pattern text alone.
pub uninterp spec fn ts_query_compiles(pattern: Seq<char>) -> bool;

/// The matches of a query pattern over a content text, parsed and
/// matched with the TypeScript grammar: a function of the pattern and
/// the content alone.  `None` when the pattern does not compile or the
/// grammar yields no tree for the content.
pub uninterp spec fn ts_matches(pattern: Seq<char>, content: Seq<char>) -> Option<
    Seq<QueryMatchData>,
>;

/// Relies on `tree_sitter::Query::new` with the TypeScript grammar of
/// `tree_sitter_typescript::language_typescript`: whether a pattern
/// compiles depends on the pattern text alone.
#[verifier::external_body]
fn check_query_compiles(pattern: &str) -> (r: bool)
    ensures
        r == ts_query_compiles(pattern@),
{
    tree_sitter::Query::new(tree_sitter_typescript::language_typescript(), pattern).is_ok()
}

/// Relies on `tree_sitter::Query::new`, `tree_sitter::Parser::parse`
/// and `tree_sitter::QueryCursor::matches` with the TypeScript grammar
/// of `tree_sitter_typescript::language_typescript`: compiles the
/// pattern, parses the content, and hands back every match of the
/// pattern over the tree, converted to plain capture records by
/// `collect_matches` below.  All three steps depend on the pattern and
/// the content alone; `None` exactly when compilation or parsing
/// fails.
#[verifier::external_body]
fn ts_run_query(pattern: &str, content: &str) -> (r: Option<Vec<QueryMatchData>>)
    ensures
        match r {
            Some(ms) => ts_matches(pattern@, content@) == Some(ms@),
            None => ts_matches(pattern@, content@) is None,
        },
{
    let g = tree_sitter_typescript::language_typescript();
    let q = tree_sitter::Query::new(g, pattern).ok()?;
    let mut p = tree_sitter::Parser::new();
    p.set_language(g).ok()?;
    let t = p.parse(content.as_bytes(), None)?;
    Some(collect_matches(&q, &t, content))
}

/// The conversion stage of `ts_run_query`, and trusted with it: runs
/// `tree_sitter::QueryCursor::matches` over the tree that
/// `ts_run_query` parsed from this very content, and converts each raw
/// match one for one — the capture's name in the pattern, the captured
/// node's text, and the node's span.  Claims nothing on its own; what
/// is believed of the pair is the contract of `ts_run_query`.
#[verifier::external_body]
fn collect_matches(query: &tree_sitter::Query, tree: &tree_sitter::Tree, content: &str) -> (ms:
    Vec<QueryMatchData>) {
    let names = query.capture_names();
    let bytes = content.as_bytes();
    let mut cursor = tree_sitter::QueryCursor::new();
    let span = |n: tree_sitter::Node| Range {
        start: Position { line: n.start_position().row, character: n.start_position().column },
        end: Position { line: n.end_position().row, character: n.end_position().column },
    };
    cursor.matches(query, tree.root_node(), bytes).map(|m| QueryMatchData {
        captures: m.captures.iter().map(|c| QueryCapture {
            name: names.get(c.index as usize).cloned().unwrap_or_default(),
            text: c.node.utf8_text(bytes).unwrap_or("").to_string(),
            range: span(c.node),
        }).collect(),
    }).collect()
}

/// The two query pattern texts of one language, checked to compile
/// against its grammar.
pub struct QueryRunner {
    pub language: crate::index::SourceLanguage,
    pub cursor_pattern: String,
    pub related_pattern: String,
}

impl QueryRunner {
    /// Checks the two query pattern texts against the language's
    /// grammar and keeps them.  Fails — a configuration fault of the
    /// deployment, not of user input — exactly when one of the
    /// patterns does not compile.
    pub fn new(
        language: crate::index::SourceLanguage,
        cursor_pattern: &str,
        related_pattern: &str,
    ) -> (r: Result<QueryRunner, ContextError>)
        ensures
            r matches Ok(runner) ==> runner.language == language && runner.cursor_pattern@
                == cursor_pattern@ && runner.related_pattern@ == related_pattern@,
            r is Err <==> !(ts_query_compiles(cursor_pattern@) && ts_query_compiles(
                related_pattern@,
            )),
            r matches Err(e) ==> e is Query,
    {
        if !check_query_compiles(cursor_pattern) {
            return Err(ContextError::Query);
        }
        if !check_query_compiles(related_pattern) {
            return Err(ContextError::Query);
        }
        Ok(
            QueryRunner {
                language,
                cursor_pattern: cursor_pattern.to_owned(),
                related_pattern: related_pattern.to_owned(),
            },
        )
    }

    /// The identifiers in scope at `cursor` inside `content`: for every
    /// match of the cursor-context pattern whose `range` captures all
    /// contain the cursor, the text of its last `identifier` capture.
    /// Duplicates are kept; the snippet set deduplicates later.  Fails
    /// with `Parse` exactly when the grammar yields no match list for
    /// `content`.
    pub fn seed_identifiers(&self, content: &str, cursor: Position) -> (r: Result<
        Vec<String>,
        ContextError,
    >)
        ensures
            r is Err <==> ts_matches(self.cursor_pattern@, content@) is None,
            r matches Err(e) ==> e is Parse,
            r matches Ok(ids) ==> ids@.map_values(|s: String| s@) == seed_ids(
                ts_matches(self.cursor_pattern@, content@)->Some_0,
                cursor,
            ),
    {
        let ms = match ts_run_query(self.cursor_pattern.as_str(), content) {
            Some(ms) => ms,
            None => {
                return Err(ContextError::Parse);
            },
        };
        Ok(seeds_from_matches(&ms, cursor))
    }

    /// The identifiers related to the declaration site whose name-range
    /// is exactly `declaration_range`: for every match of the
    /// related-sibling pattern whose last `name` capture spans that
    /// range, the texts of its `related` captures.  Fails with `Parse`
    /// exactly when the grammar yields no match list for `content`.
    pub fn related_identifiers(&self, content: &str, declaration_range: Range) -> (r: Result<
        Vec<String>,
        ContextError,
    >)
        ensures
            r is Err <==> ts_matches(self.related_pattern@, content@) is None,
            r matches Err(e) ==> e is Parse,
            r matches Ok(ids) ==> ids@.map_values(|s: String| s@) == related_ids(
                ts_matches(self.related_pattern@, content@)->Some_0,
                declaration_range,
            ),
    {
        let ms = match ts_run_query(self.related_pattern.as_str(), content) {
            Some(ms) => ms,
            None => {
                return Err(ContextError::Parse);
            },
        };
        Ok(related_from_matches(&ms, declaration_range))
    }
}

} // verus!
