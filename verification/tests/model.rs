use code_context::query::{
    related_from_matches, seeds_from_matches, str_eq, QueryCapture, QueryMatchData,
};
use code_context::store::{ContentId, ContentStore};
use code_context::text::{slice_range, Position, Range};

fn pos(line: usize, character: usize) -> Position {
    Position { line, character }
}

fn range(sl: usize, sc: usize, el: usize, ec: usize) -> Range {
    Range { start: pos(sl, sc), end: pos(el, ec) }
}

#[test]
fn position_order_and_containment() {
    let outer = range(0, 2, 3, 5);
    assert!(outer.contains(&range(0, 2, 3, 5)));
    assert!(outer.contains(&range(1, 0, 2, 9)));
    assert!(!outer.contains(&range(0, 1, 3, 5)));
    assert!(!outer.contains(&range(0, 2, 3, 6)));
    assert!(outer.contains_position(&pos(0, 2)));
    assert!(outer.contains_position(&pos(3, 5)));
    assert!(!outer.contains_position(&pos(3, 6)));
    assert!(!outer.contains_position(&pos(0, 1)));
}

#[test]
fn empty_range_sentinel() {
    assert!(range(2, 7, 2, 7).is_empty());
    assert!(!range(2, 7, 2, 8).is_empty());
}

#[test]
fn slice_within_one_line() {
    let text = "function a() { b(); }";
    let got = slice_range(text, &range(0, 9, 0, 10));
    assert_eq!(got.as_deref(), Some("a"));
    let all = slice_range(text, &range(0, 0, 0, 21));
    assert_eq!(all.as_deref(), Some("function a() { b(); }"));
}

#[test]
fn slice_across_lines() {
    let text = "ab\ncd\nef";
    assert_eq!(slice_range(text, &range(0, 1, 1, 1)).as_deref(), Some("b\nc"));
    assert_eq!(slice_range(text, &range(1, 0, 2, 2)).as_deref(), Some("cd\nef"));
    assert_eq!(slice_range(text, &range(0, 0, 0, 2)).as_deref(), Some("ab"));
}

#[test]
fn slice_out_of_bounds_fails() {
    let text = "ab\ncd";
    assert_eq!(slice_range(text, &range(0, 3, 0, 3)), None);
    assert_eq!(slice_range(text, &range(2, 0, 2, 0)), None);
    assert_eq!(slice_range(text, &range(1, 0, 0, 1)), None);
    assert_eq!(slice_range(text, &range(0, 0, 1, 3)), None);
}

#[test]
fn string_comparison() {
    assert!(str_eq("related", "related"));
    assert!(!str_eq("related", "relate"));
    assert!(!str_eq("", "a"));
    assert!(str_eq("", ""));
}

fn capture(name: &str, text: &str, r: Range) -> QueryCapture {
    QueryCapture { name: name.to_string(), text: text.to_string(), range: r }
}

#[test]
fn seed_filtering_by_range_capture() {
    let matches = vec![
        QueryMatchData {
            captures: vec![
                capture("identifier", "inScope", range(5, 0, 5, 7)),
                capture("range", "", range(0, 0, 9, 0)),
            ],
        },
        QueryMatchData {
            captures: vec![
                capture("identifier", "elsewhere", range(20, 0, 20, 9)),
                capture("range", "", range(20, 0, 25, 0)),
            ],
        },
        QueryMatchData { captures: vec![capture("identifier", "everywhere", range(1, 0, 1, 10))] },
        QueryMatchData { captures: vec![capture("range", "", range(0, 0, 9, 0))] },
    ];
    let ids = seeds_from_matches(&matches, pos(5, 3));
    assert_eq!(ids, vec!["inScope".to_string(), "everywhere".to_string()]);
}

#[test]
fn seed_takes_last_identifier_capture() {
    let matches = vec![QueryMatchData {
        captures: vec![
            capture("identifier", "first", range(0, 0, 0, 5)),
            capture("identifier", "second", range(0, 6, 0, 12)),
        ],
    }];
    let ids = seeds_from_matches(&matches, pos(0, 0));
    assert_eq!(ids, vec!["second".to_string()]);
}

#[test]
fn related_requires_exact_name_range() {
    let decl = range(0, 9, 0, 10);
    let matches = vec![
        QueryMatchData {
            captures: vec![
                capture("name", "a", range(0, 9, 0, 10)),
                capture("related", "b", range(0, 15, 0, 16)),
                capture("related", "c", range(0, 18, 0, 19)),
            ],
        },
        QueryMatchData {
            captures: vec![
                capture("name", "other", range(3, 9, 3, 14)),
                capture("related", "d", range(3, 20, 3, 21)),
            ],
        },
        QueryMatchData { captures: vec![capture("related", "orphan", range(9, 0, 9, 6))] },
    ];
    let ids = related_from_matches(&matches, decl);
    assert_eq!(ids, vec!["b".to_string(), "c".to_string()]);
}

#[test]
fn content_store_reads_what_was_inserted() {
    let mut store = ContentStore::new();
    let id1 = ContentId { bytes: [1u8; 20] };
    let id2 = ContentId { bytes: [2u8; 20] };
    store.insert(id1, "one".to_string());
    store.insert(id2, "two".to_string());
    assert_eq!(store.read(&id1).map(|s| s.as_str()), Some("one"));
    assert_eq!(store.read(&id2).map(|s| s.as_str()), Some("two"));
    assert_eq!(store.read(&ContentId { bytes: [9u8; 20] }), None);
    store.insert(id1, "replaced".to_string());
    assert_eq!(store.read(&id1).map(|s| s.as_str()), Some("replaced"));
}

#[test]
fn byte_columns_resolve_multibyte_characters() {
    // Columns count UTF-8 bytes within a line, as grammar captures
    // report them: a column on a character boundary resolves, one
    // inside a multibyte character fails.
    let text = "héllo\nwörld";
    assert_eq!(slice_range(text, &range(0, 0, 0, 3)).as_deref(), Some("hé"));
    assert_eq!(slice_range(text, &range(0, 0, 0, 2)), None);
    assert_eq!(slice_range(text, &range(1, 0, 1, 3)).as_deref(), Some("wö"));
    assert_eq!(slice_range(text, &range(0, 3, 1, 1)).as_deref(), Some("llo\nw"));
}
