use code_context::context::{
    context_at_position, symbol_snippets_near_cursor, SnippetSet,
};
use code_context::document::{Document, Occurrence, SymbolInformation};
use code_context::index::{build_index, SourceFile, SourceLanguage};
use code_context::runner::QueryRunner;
use code_context::store::{ContentId, ContentStore};
use code_context::text::{Position, Range};
use code_context::types::{ContextError, SymbolContextSnippet};

/// Cursor-context pattern used by these tests: every identifier is in
/// scope everywhere (no `range` capture).
const CURSOR_QUERY: &str = "(identifier) @identifier";

/// Related-sibling pattern used by these tests: at a function
/// declaration, the functions it calls are related.
const RELATED_QUERY: &str = "(function_declaration\n  name: (identifier) @name\n  body: (statement_block\n    (expression_statement\n      (call_expression\n        function: (identifier) @related))))";

fn pos(line: usize, character: usize) -> Position {
    Position { line, character }
}

fn range(sl: usize, sc: usize, el: usize, ec: usize) -> Range {
    Range { start: pos(sl, sc), end: pos(el, ec) }
}

fn cid(n: u8) -> ContentId {
    ContentId { bytes: [n; 20] }
}

fn runner() -> QueryRunner {
    QueryRunner::new(SourceLanguage::Typescript, CURSOR_QUERY, RELATED_QUERY)
        .expect("the test queries compile against the grammar")
}

fn sym(name: &str) -> String {
    format!("s . . . {}().", name)
}

/// One single-line function definition file: the defining occurrence
/// spans the name token, the enclosing range spans the whole line.
fn definition_file(id: u8, path: &str, source: &str, name: &str) -> (SourceFile, ContentId, String)
{
    let name_at = source.find(&format!("{}(", name)).expect("the name occurs in its source");
    let occurrence = Occurrence {
        range: range(0, name_at, 0, name_at + name.len()),
        enclosing_range: range(0, 0, 0, source.len()),
        symbol: sym(name),
    };
    let file = SourceFile {
        path: path.to_string(),
        id: cid(id),
        document: Document { symbols: vec![], occurrences: vec![occurrence] },
    };
    (file, cid(id), source.to_string())
}

fn snippet_names(snippets: &[SymbolContextSnippet]) -> Vec<String> {
    let mut names: Vec<String> = snippets.iter().map(|s| s.file_name.clone()).collect();
    names.sort();
    names
}

/// A four-file call chain a -> b -> c -> d (and d -> a, closing a
/// cycle); resolving `a` must reach exactly as many definitions as
/// `max_depth` allows.
fn chain_setup() -> (code_context::index::Index, ContentStore) {
    let mut files = Vec::new();
    let mut store = ContentStore::new();
    for (i, (name, callee)) in
        [("a", "b"), ("b", "c"), ("c", "d"), ("d", "a")].iter().enumerate()
    {
        let source = format!("function {}() {{ {}(); }}", name, callee);
        let (file, id, text) = definition_file(i as u8 + 1, &format!("{}.ts", name), &source, name);
        files.push(file);
        store.insert(id, text);
    }
    (build_index(files), store)
}

#[test]
fn depth_bound_shrinks_results() {
    let (index, store) = chain_setup();
    let runner = runner();
    for (max_depth, expected) in [(4u8, 4usize), (2, 2), (1, 1), (0, 0)] {
        let response = context_at_position(&index, &store, &runner, "a();", pos(0, 0), max_depth)
            .expect("resolution succeeds");
        assert_eq!(
            response.symbols.len(),
            expected,
            "max_depth {} must reach {} definitions",
            max_depth,
            expected
        );
        assert!(response.files.is_empty());
    }
}

#[test]
fn depth_bound_cuts_the_cycle() {
    let (index, store) = chain_setup();
    let runner = runner();
    let response = context_at_position(&index, &store, &runner, "a();", pos(0, 0), 40)
        .expect("resolution succeeds");
    assert_eq!(response.symbols.len(), 4);
    assert_eq!(
        snippet_names(&response.symbols),
        vec!["a.ts", "b.ts", "c.ts", "d.ts"]
    );
}

#[test]
fn end_to_end_say_hello() {
    let greet_source = "function sayHello(name: string) { return \"hi \" + name; }";
    let (greet, greet_id, greet_text) = definition_file(1, "greet.ts", greet_source, "sayHello");
    let main_source = "sayHello(\"world\");";
    let main_file = SourceFile {
        path: "main.ts".to_string(),
        id: cid(2),
        document: Document {
            symbols: vec![],
            occurrences: vec![Occurrence {
                range: range(0, 0, 0, 8),
                enclosing_range: range(0, 0, 0, 0),
                symbol: sym("sayHello"),
            }],
        },
    };
    let mut store = ContentStore::new();
    store.insert(greet_id, greet_text);
    store.insert(cid(2), main_source.to_string());
    let index = build_index(vec![greet, main_file]);

    let response =
        context_at_position(&index, &store, &runner(), main_source, pos(0, 2), 1)
            .expect("resolution succeeds");
    assert_eq!(response.symbols.len(), 1);
    let snippet = &response.symbols[0];
    assert_eq!(snippet.file_name, "greet.ts");
    assert!(snippet.content.contains("function sayHello(name: string)"));
    assert_eq!(snippet.symbol, sym("sayHello"));
}

#[test]
fn empty_enclosing_range_yields_no_snippet() {
    let source = "function bare() { return 1; }";
    let file = SourceFile {
        path: "bare.ts".to_string(),
        id: cid(1),
        document: Document {
            symbols: vec![],
            occurrences: vec![Occurrence {
                range: range(0, 9, 0, 13),
                enclosing_range: range(0, 9, 0, 9),
                symbol: sym("bare"),
            }],
        },
    };
    let mut store = ContentStore::new();
    store.insert(cid(1), source.to_string());
    let index = build_index(vec![file]);
    let response = context_at_position(&index, &store, &runner(), "bare;", pos(0, 1), 4)
        .expect("resolution succeeds");
    assert!(response.symbols.is_empty());
}

#[test]
fn signature_text_takes_precedence_over_slice() {
    let source = "function fancy() { some(); body(); }";
    let symbol = sym("fancy");
    let file = SourceFile {
        path: "fancy.ts".to_string(),
        id: cid(1),
        document: Document {
            symbols: vec![SymbolInformation {
                symbol: symbol.clone(),
                signature: Some("function fancy(): RecordedSignature".to_string()),
            }],
            occurrences: vec![Occurrence {
                range: range(0, 9, 0, 14),
                enclosing_range: range(0, 0, 0, source.len()),
                symbol: symbol.clone(),
            }],
        },
    };
    let mut store = ContentStore::new();
    store.insert(cid(1), source.to_string());
    let index = build_index(vec![file]);
    let response = context_at_position(&index, &store, &runner(), "fancy;", pos(0, 1), 2)
        .expect("resolution succeeds");
    assert_eq!(response.symbols.len(), 1);
    assert_eq!(response.symbols[0].content, "function fancy(): RecordedSignature");
    assert_ne!(response.symbols[0].content, source);
}

#[test]
fn shared_simple_name_contributes_from_both_files() {
    let (one, id1, text1) =
        definition_file(1, "one.ts", "function dup() { here(); }", "dup");
    let two_source = "function dup() { there(); }";
    let two = SourceFile {
        path: "two.ts".to_string(),
        id: cid(2),
        document: Document {
            symbols: vec![],
            occurrences: vec![Occurrence {
                range: range(0, 9, 0, 12),
                enclosing_range: range(0, 0, 0, two_source.len()),
                symbol: "other x y 2.0 unrelated/dup().".to_string(),
            }],
        },
    };
    let mut store = ContentStore::new();
    store.insert(id1, text1);
    store.insert(cid(2), two_source.to_string());
    let index = build_index(vec![one, two]);
    let response = context_at_position(&index, &store, &runner(), "dup;", pos(0, 1), 1)
        .expect("resolution succeeds");
    assert_eq!(response.symbols.len(), 2);
    assert_eq!(snippet_names(&response.symbols), vec!["one.ts", "two.ts"]);
}

#[test]
fn snippet_set_deduplicates_same_triple() {
    let mut set = SnippetSet::new();
    let snip = SymbolContextSnippet {
        file_name: "f.ts".to_string(),
        symbol: sym("x"),
        content: "function x() {}".to_string(),
    };
    set.insert(snip.clone());
    set.insert(snip.clone());
    assert_eq!(set.items.len(), 1);
    let other = SymbolContextSnippet { content: "different".to_string(), ..snip };
    set.insert(other);
    assert_eq!(set.items.len(), 2);
}

#[test]
fn duplicate_paths_produce_one_snippet() {
    // The same definition indexed twice: both traversal paths insert
    // the same {file, symbol, content} triple and the result holds it
    // once.
    let source = "function once() { once(); }";
    let (file, id, text) = definition_file(1, "once.ts", source, "once");
    let mut store = ContentStore::new();
    store.insert(id, text);
    let index = build_index(vec![file]);
    let response = context_at_position(&index, &store, &runner(), "once;", pos(0, 1), 9)
        .expect("resolution succeeds");
    assert_eq!(response.symbols.len(), 1);
}

#[test]
fn whitespace_content_gives_empty_answer() {
    let (index, store) = chain_setup();
    let response = context_at_position(&index, &store, &runner(), "   ", pos(0, 1), 4)
        .expect("an empty answer is not an error");
    assert!(response.symbols.is_empty());
    assert!(response.files.is_empty());
}

#[test]
fn unknown_identifier_gives_empty_answer() {
    let (index, store) = chain_setup();
    let response = context_at_position(&index, &store, &runner(), "nobody;", pos(0, 2), 4)
        .expect("resolution succeeds");
    assert!(response.symbols.is_empty());
}

#[test]
fn bad_query_pattern_is_a_query_error() {
    let err = match QueryRunner::new(SourceLanguage::Typescript, "(((", RELATED_QUERY) {
        Err(e) => e,
        Ok(_) => panic!("an unbalanced pattern must not compile"),
    };
    assert_eq!(err, ContextError::Query);
    assert_eq!(err.message(), "query does not match the grammar");
    let err =
        match QueryRunner::new(SourceLanguage::Typescript, CURSOR_QUERY, "(no_such_node) @name") {
            Err(e) => e,
            Ok(_) => panic!("a pattern over unknown node kinds must not compile"),
        };
    assert_eq!(err, ContextError::Query);
}

#[test]
fn snippets_accumulate_across_calls() {
    let (index, store) = chain_setup();
    let runner = runner();
    let mut set = SnippetSet::new();
    symbol_snippets_near_cursor(&mut set, &store, &index, &runner, "a();", pos(0, 0), 0, 1)
        .expect("resolution succeeds");
    assert_eq!(set.items.len(), 1);
    symbol_snippets_near_cursor(&mut set, &store, &index, &runner, "b();", pos(0, 0), 0, 1)
        .expect("resolution succeeds");
    assert_eq!(set.items.len(), 2);
    symbol_snippets_near_cursor(&mut set, &store, &index, &runner, "a();", pos(0, 0), 0, 1)
        .expect("resolution succeeds");
    assert_eq!(set.items.len(), 2);
}

#[test]
fn missing_source_is_skipped() {
    // The candidate is indexed but its blob is absent from the store:
    // the occurrence contributes nothing and resolution goes on.
    let (file, _id, _text) =
        definition_file(1, "ghost.ts", "function ghost() { gone(); }", "ghost");
    let store = ContentStore::new();
    let index = build_index(vec![file]);
    let response = context_at_position(&index, &store, &runner(), "ghost;", pos(0, 1), 3)
        .expect("resolution succeeds");
    assert!(response.symbols.is_empty());
}

#[test]
fn out_of_bounds_enclosing_range_is_skipped() {
    let source = "function tiny() { x(); }";
    let file = SourceFile {
        path: "tiny.ts".to_string(),
        id: cid(1),
        document: Document {
            symbols: vec![],
            occurrences: vec![Occurrence {
                range: range(0, 9, 0, 13),
                enclosing_range: range(0, 0, 7, 0),
                symbol: sym("tiny"),
            }],
        },
    };
    let mut store = ContentStore::new();
    store.insert(cid(1), source.to_string());
    let index = build_index(vec![file]);
    let response = context_at_position(&index, &store, &runner(), "tiny;", pos(0, 1), 3)
        .expect("resolution succeeds");
    assert!(response.symbols.is_empty());
}

#[test]
fn uncompiled_pattern_surfaces_as_parse_error() {
    // A runner whose pattern text never compiled yields no match list
    // for any content, which the cursor call reports as a parse
    // failure of the request.
    let runner = QueryRunner {
        language: SourceLanguage::Typescript,
        cursor_pattern: "(((".to_string(),
        related_pattern: RELATED_QUERY.to_string(),
    };
    let (index, store) = chain_setup();
    let err = match context_at_position(&index, &store, &runner, "a();", pos(0, 0), 4) {
        Err(e) => e,
        Ok(_) => panic!("an uncompiled pattern must not yield matches"),
    };
    assert_eq!(err, ContextError::Parse);
    assert_eq!(err.message(), "failed to parse content");
}

#[test]
fn failing_related_pattern_is_a_non_fatal_skip() {
    // When the related-sibling pattern yields no match list, the
    // related hop contributes nothing but the request still succeeds
    // with the directly resolved definitions.
    let runner = QueryRunner {
        language: SourceLanguage::Typescript,
        cursor_pattern: CURSOR_QUERY.to_string(),
        related_pattern: "(((".to_string(),
    };
    let (index, store) = chain_setup();
    let response = context_at_position(&index, &store, &runner, "a();", pos(0, 0), 4)
        .expect("resolution succeeds");
    assert_eq!(snippet_names(&response.symbols), vec!["a.ts"]);
}
