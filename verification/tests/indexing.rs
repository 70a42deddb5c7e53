use code_context::document::{Document, Occurrence, SymbolInformation};
use code_context::index::{build_index, language_for_path, RepoIndices, SourceFile, SourceLanguage};
use code_context::store::ContentId;
use code_context::symbol::symbol_has_simple_name;
use code_context::text::{Position, Range};

fn pos(line: usize, character: usize) -> Position {
    Position { line, character }
}

fn range(sl: usize, sc: usize, el: usize, ec: usize) -> Range {
    Range { start: pos(sl, sc), end: pos(el, ec) }
}

fn cid(n: u8) -> ContentId {
    ContentId { bytes: [n; 20] }
}

fn occurrence(symbol: &str, r: Range, enclosing: Range) -> Occurrence {
    Occurrence { range: r, enclosing_range: enclosing, symbol: symbol.to_string() }
}

#[test]
fn simple_name_of_symbol_string() {
    assert!(symbol_has_simple_name("scip-ts npm pkg 1.0.0 sayHello().", "sayHello"));
    assert!(symbol_has_simple_name("s . . . a/b#", "b"));
    assert!(!symbol_has_simple_name("scip-ts npm pkg 1.0.0 sayHello().", "sayGoodbye"));
    assert!(!symbol_has_simple_name("not a parsable symbol \u{1}", "not"));
    assert!(!symbol_has_simple_name("", "anything"));
}

#[test]
fn extension_maps_to_language() {
    assert_eq!(language_for_path("src/app.ts"), Some(SourceLanguage::Typescript));
    assert_eq!(language_for_path("a.ts"), Some(SourceLanguage::Typescript));
    assert_eq!(language_for_path("picture.png"), None);
    assert_eq!(language_for_path("ts"), None);
    assert_eq!(language_for_path("README"), None);
}

#[test]
fn index_records_indexable_files_only() {
    let files = vec![
        SourceFile {
            path: "a.ts".to_string(),
            id: cid(1),
            document: Document {
                symbols: vec![],
                occurrences: vec![occurrence(
                    "s . . . alpha().",
                    range(0, 9, 0, 14),
                    range(0, 0, 0, 20),
                )],
            },
        },
        SourceFile {
            path: "logo.png".to_string(),
            id: cid(2),
            document: Document {
                symbols: vec![],
                occurrences: vec![occurrence(
                    "s . . . beta().",
                    range(0, 0, 0, 4),
                    range(0, 0, 0, 9),
                )],
            },
        },
    ];
    let index = build_index(files);
    assert_eq!(index.oid_to_document_context.len(), 1);
    assert_eq!(index.oid_to_basename.len(), 1);
    assert_eq!(index.oid_to_basename[0].1, "a.ts");
    let alpha = index.candidates(SourceLanguage::Typescript, "alpha");
    assert_eq!(alpha.len(), 1);
    assert_eq!(alpha[0], cid(1));
    assert!(index.candidates(SourceLanguage::Typescript, "beta").is_empty());
}

#[test]
fn index_skips_malformed_symbols() {
    let files = vec![SourceFile {
        path: "m.ts".to_string(),
        id: cid(3),
        document: Document {
            symbols: vec![],
            occurrences: vec![
                occurrence("garbage\u{1}", range(0, 0, 0, 1), range(0, 0, 0, 5)),
                occurrence("s . . . good().", range(1, 0, 1, 4), range(1, 0, 1, 9)),
            ],
        },
    }];
    let index = build_index(files);
    assert_eq!(index.oid_to_document_context.len(), 1);
    let good = index.candidates(SourceLanguage::Typescript, "good");
    assert_eq!(good.len(), 1);
}

#[test]
fn index_derives_signature_positions() {
    let sym = "s . . . withSig().";
    let files = vec![SourceFile {
        path: "sig.ts".to_string(),
        id: cid(4),
        document: Document {
            symbols: vec![
                SymbolInformation { symbol: "s . . . other().".to_string(), signature: None },
                SymbolInformation {
                    symbol: sym.to_string(),
                    signature: Some("function withSig(): void".to_string()),
                },
            ],
            occurrences: vec![occurrence(sym, range(0, 9, 0, 16), range(0, 0, 0, 30))],
        },
    }];
    let index = build_index(files);
    let dc = &index.oid_to_document_context[0].1;
    assert_eq!(dc.symbol_to_symbol_information.len(), 2);
    assert_eq!(dc.symbol_to_symbol_information[1], (sym.to_string(), 1));
}

#[test]
fn revision_replacement_swaps_whole_index() {
    let location = "file:///repo".to_string();
    let old_revision = vec![SourceFile {
        path: "old.ts".to_string(),
        id: cid(5),
        document: Document {
            symbols: vec![],
            occurrences: vec![occurrence(
                "s . . . removedSymbol().",
                range(0, 9, 0, 22),
                range(0, 0, 0, 30),
            )],
        },
    }];
    let new_revision = vec![SourceFile {
        path: "new.ts".to_string(),
        id: cid(6),
        document: Document {
            symbols: vec![],
            occurrences: vec![occurrence(
                "s . . . addedSymbol().",
                range(0, 9, 0, 20),
                range(0, 0, 0, 28),
            )],
        },
    }];

    let mut indices = RepoIndices::new();
    indices.install(location.clone(), build_index(old_revision));
    let active = indices.get(&location).expect("an index is installed");
    assert_eq!(active.candidates(SourceLanguage::Typescript, "removedSymbol").len(), 1);
    assert!(active.candidates(SourceLanguage::Typescript, "addedSymbol").is_empty());

    indices.install(location.clone(), build_index(new_revision));
    let active = indices.get(&location).expect("an index is installed");
    assert!(active.candidates(SourceLanguage::Typescript, "removedSymbol").is_empty());
    assert_eq!(active.candidates(SourceLanguage::Typescript, "addedSymbol").len(), 1);
    assert!(indices.get("file:///other").is_none());
}
