//! The context-resolution engine.
//!
//! Given a cursor position inside a content snippet, the engine finds
//! the seed identifiers in scope there, resolves each against the
//! symbol index by simple name, extracts a snippet for every matching
//! occurrence that has a definitional body, discovers the identifiers
//! related to that occurrence's declaration site, and recurses, with
//! the depth growing by one on every related-identifier hop and the
//! traversal cut off at `max_depth`.  The result is a deduplicated
//! snippet set; all data faults inside the traversal are non-fatal
//! skips, only a parse failure of the request content itself aborts.

use vstd::prelude::*;

use crate::document::{signature_for, signature_lookup, DocumentContext, Occurrence};
use crate::index::{basename_lookup, doc_lookup, name_maps, Index, SourceLanguage};
use crate::query::{related_ids, seed_ids, QueryMatchData};
use crate::runner::ts_matches;
use crate::runner::QueryRunner;
use crate::store::{store_lookup, ContentId, ContentStore};
use crate::symbol::{simple_name_of, symbol_has_simple_name};
use crate::text::{range_is_empty, slice_range, slice_spec, Position, Range};
use crate::types::{ContextAtPositionResponse, ContextError, SymbolContextSnippet};

verus! {

/// Whether the set holds a snippet with exactly these three fields.
/// Snippet identity is structural: the defining file, the symbol
/// string, and the snippet text.
pub open spec fn set_has(
    items: Seq<SymbolContextSnippet>,
    file_name: Seq<char>,
    symbol: Seq<char>,
    content: Seq<char>,
) -> bool {
    exists|i: int|
        0 <= i < items.len() && (#[trigger] items[i]).file_name@ == file_name && items[i].symbol@
            == symbol && items[i].content@ == content
}

/// No two entries are the same snippet.
pub open spec fn no_duplicate_snippets(items: Seq<SymbolContextSnippet>) -> bool {
    forall|i: int, j: int|
        0 <= i < j < items.len() ==> !((#[trigger] items[i]).file_name@ == (
        #[trigger] items[j]).file_name@ && items[i].symbol@ == items[j].symbol@
            && items[i].content@ == items[j].content@)
}

/// Every snippet of `older` is in `newer`: the engine only ever adds.
pub open spec fn set_extends(
    older: Seq<SymbolContextSnippet>,
    newer: Seq<SymbolContextSnippet>,
) -> bool {
    forall|f: Seq<char>, sy: Seq<char>, c: Seq<char>|
        #[trigger] set_has(older, f, sy, c) ==> set_has(newer, f, sy, c)
}

/// Everything in `newer` was in `older` or is justified by the index
/// and the store.
pub open spec fn additions_justified(
    index: Index,
    store: ContentStore,
    older: Seq<SymbolContextSnippet>,
    newer: Seq<SymbolContextSnippet>,
) -> bool {
    forall|f: Seq<char>, sy: Seq<char>, c: Seq<char>|
        #[trigger] set_has(newer, f, sy, c) ==> set_has(older, f, sy, c) || justified(
            index,
            store,
            f,
            sy,
            c,
        )
}

/// The snippet text an occurrence yields: the signature text the
/// document records for the occurrence's symbol when there is one —
/// recorded signatures take precedence — else the slice of the source
/// text that the enclosing range spans.
pub open spec fn content_of_occurrence(
    dc: DocumentContext,
    occ: Occurrence,
    source: Seq<char>,
) -> Option<Seq<char>> {
    match signature_lookup(dc, occ.symbol@) {
        Some(sig) => Some(sig),
        None => slice_spec(source, occ.enclosing_range),
    }
}

/// The occurrence at `(di, oj)` accounts for the snippet
/// `(file_name, symbol, content)`: it carries the snippet's symbol, it
/// has a definitional body — an occurrence with an empty enclosing
/// range never produces a snippet — the file it sits in is named
/// `file_name` by the index, and the snippet text is the occurrence's
/// per `content_of_occurrence` over the stored source.
pub open spec fn justified_at(
    index: Index,
    store: ContentStore,
    file_name: Seq<char>,
    symbol: Seq<char>,
    content: Seq<char>,
    di: int,
    oj: int,
) -> bool {
    0 <= di < index.oid_to_document_context@.len() && {
        let id = index.oid_to_document_context@[di].0;
        let dc = index.oid_to_document_context@[di].1;
        0 <= oj < dc.document.occurrences@.len() && {
            let occ = dc.document.occurrences@[oj];
            occ.symbol@ == symbol && !range_is_empty(occ.enclosing_range) && basename_lookup(
                index.oid_to_basename@,
                id@,
            ) == Some(file_name) && match store_lookup(store.entries@, id@) {
                Some(src) => content_of_occurrence(dc, occ, src) == Some(content),
                None => false,
            }
        }
    }
}

/// Some indexed occurrence accounts for the snippet.
pub open spec fn justified(
    index: Index,
    store: ContentStore,
    file_name: Seq<char>,
    symbol: Seq<char>,
    content: Seq<char>,
) -> bool {
    exists|di: int, oj: int|
        #[trigger] justified_at(index, store, file_name, symbol, content, di, oj)
}

/// The occurrence `occ` of a document whose source is `src` and whose
/// recorded path is `base` is covered by `items`: if its symbol's
/// simple name is `name`, it has a definitional body, and its snippet
/// text is determined, then its snippet is in the set.
pub open spec fn occ_covered(
    dc: DocumentContext,
    occ: Occurrence,
    src: Seq<char>,
    base: Seq<char>,
    name: Seq<char>,
    items: Seq<SymbolContextSnippet>,
) -> bool {
    (simple_name_of(occ.symbol@) == Some(name) && !range_is_empty(occ.enclosing_range)
        && content_of_occurrence(dc, occ, src) is Some) ==> set_has(
        items,
        base,
        occ.symbol@,
        content_of_occurrence(dc, occ, src)->Some_0,
    )
}

/// Every occurrence of the candidate file `id` is covered by `items`,
/// provided the file's document, source and path are all on record;
/// a candidate any of whose records is missing owes nothing.
pub open spec fn due_present_for(
    index: Index,
    store: ContentStore,
    name: Seq<char>,
    id: Seq<u8>,
    items: Seq<SymbolContextSnippet>,
) -> bool {
    match (
        doc_lookup(index.oid_to_document_context@, id),
        store_lookup(store.entries@, id),
        basename_lookup(index.oid_to_basename@, id),
    ) {
        (Some(dc), Some(src), Some(base)) => forall|oj: int|
            0 <= oj < dc.document.occurrences@.len() ==> occ_covered(
                dc,
                #[trigger] dc.document.occurrences@[oj],
                src,
                base,
                name,
                items,
            ),
        _ => true,
    }
}

/// Everything a simple-name lookup owes is in the set: every candidate
/// file of `(lang, name)` in the reverse lookup is covered.  Matching
/// is by simple name alone, so unrelated symbols that share the name
/// all take part.
pub open spec fn due_present(
    index: Index,
    store: ContentStore,
    lang: SourceLanguage,
    name: Seq<char>,
    items: Seq<SymbolContextSnippet>,
) -> bool {
    forall|id: Seq<u8>|
        #[trigger] name_maps(index.lang_and_name_to_oids@, lang, name, id) ==> due_present_for(
            index,
            store,
            name,
            id,
            items,
        )
}

/// The engine's shared accumulator: a snippet set with structural
/// identity, deduplicating snippets that different traversal paths
/// produce.
pub struct SnippetSet {
    pub items: Vec<SymbolContextSnippet>,
}

impl SnippetSet {
    /// The set never holds the same snippet twice.
    pub open spec fn wf(&self) -> bool {
        no_duplicate_snippets(self.items@)
    }

    /// An empty set.
    pub fn new() -> (s: SnippetSet)
        ensures
            s.wf(),
            s.items@.len() == 0,
    {
        SnippetSet { items: Vec::new() }
    }

    /// Inserts a snippet.  Inserting a snippet the set already holds
    /// changes nothing: the length grows exactly when the snippet is
    /// new, so the same triple reached along two traversal paths yields
    /// one entry.
    pub fn insert(&mut self, s: SymbolContextSnippet)
        requires
            old(self).wf(),
        ensures
            final(self).wf(),
            set_has(final(self).items@, s.file_name@, s.symbol@, s.content@),
            forall|f: Seq<char>, sy: Seq<char>, c: Seq<char>|
                #[trigger] set_has(final(self).items@, f, sy, c) == (set_has(
                    old(self).items@,
                    f,
                    sy,
                    c,
                ) || (f == s.file_name@ && sy == s.symbol@ && c == s.content@)),
            final(self).items@.len() == old(self).items@.len() + (
            if set_has(old(self).items@, s.file_name@, s.symbol@, s.content@) {
                0int
            } else {
                1int
            }),
    {
        let n = self.items.len();
        let mut i: usize = 0;
        while i < n
            invariant
                0 <= i <= n,
                n == self.items@.len(),
                old(self).wf(),
                self.items@ == old(self).items@,
                forall|k: int|
                    0 <= k < i ==> !((#[trigger] self.items@[k]).file_name@ == s.file_name@
                        && self.items@[k].symbol@ == s.symbol@ && self.items@[k].content@
                        == s.content@),
            decreases n - i,
        {
            if self.items[i].file_name == s.file_name && self.items[i].symbol == s.symbol
                && self.items[i].content == s.content {
                proof {
                    assert((#[trigger] self.items@[i as int]).file_name@ == s.file_name@
                        && self.items@[i as int].symbol@ == s.symbol@
                        && self.items@[i as int].content@ == s.content@);
                    assert(set_has(self.items@, s.file_name@, s.symbol@, s.content@));
                }
                return ;
            }
            i = i + 1;
        }
        let ghost old_items = self.items@;
        self.items.push(s);
        proof {
            assert(self.items@.last() == s);
            assert(self.items@.drop_last() =~= old_items);
            assert(set_has(self.items@, s.file_name@, s.symbol@, s.content@));
            assert forall|f: Seq<char>, sy: Seq<char>, c: Seq<char>|
                #[trigger] set_has(self.items@, f, sy, c) == (set_has(old_items, f, sy, c) || (f
                    == s.file_name@ && sy == s.symbol@ && c == s.content@)) by {
                if set_has(self.items@, f, sy, c) {
                    let k = choose|k: int|
                        0 <= k < self.items@.len() && (#[trigger] self.items@[k]).file_name@ == f
                            && self.items@[k].symbol@ == sy && self.items@[k].content@ == c;
                    if k < old_items.len() {
                        assert(old_items[k] == self.items@[k]);
                        assert(set_has(old_items, f, sy, c));
                    }
                }
                if set_has(old_items, f, sy, c) {
                    let k = choose|k: int|
                        0 <= k < old_items.len() && (#[trigger] old_items[k]).file_name@ == f
                            && old_items[k].symbol@ == sy && old_items[k].content@ == c;
                    assert(self.items@[k] == old_items[k]);
                    assert(set_has(self.items@, f, sy, c));
                }
            }
        }
    }
}

/// A successful document lookup hands back one of the index's entries.
proof fn lemma_doc_lookup_is_entry(entries: Seq<(ContentId, DocumentContext)>, id: Seq<u8>)
    requires
        doc_lookup(entries, id) is Some,
    ensures
        exists|di: int|
            0 <= di < entries.len() && (#[trigger] entries[di]).0@ == id && entries[di].1
                == doc_lookup(entries, id)->Some_0,
    decreases entries.len(),
{
    if entries.last().0@ == id {
        assert(entries[entries.len() - 1] == entries.last());
    } else {
        lemma_doc_lookup_is_entry(entries.drop_last(), id);
        let di = choose|di: int|
            0 <= di < entries.drop_last().len() && (#[trigger] entries.drop_last()[di]).0@ == id
                && entries.drop_last()[di].1 == doc_lookup(entries.drop_last(), id)->Some_0;
        assert(entries[di] == entries.drop_last()[di]);
    }
}

/// The snippet triples that resolving one occurrence of a candidate
/// file may add at `depth`: the occurrence's own snippet — when its
/// symbol's simple name is `name`, it has a definitional body and its
/// snippet text is determined — and, one related hop deeper,
/// everything the identifiers related to its declaration site resolve
/// to.  Beyond the depth limit nothing is added.
pub open spec fn in_occurrence_additions(
    index: Index,
    store: ContentStore,
    lang: SourceLanguage,
    rp: Seq<char>,
    dc: DocumentContext,
    occ: Occurrence,
    src: Seq<char>,
    base: Seq<char>,
    name: Seq<char>,
    depth: int,
    max_depth: int,
    f: Seq<char>,
    sy: Seq<char>,
    c: Seq<char>,
) -> bool
    decreases max_depth - depth, 0int,
{
    if depth >= max_depth {
        false
    } else {
        simple_name_of(occ.symbol@) == Some(name) && !range_is_empty(occ.enclosing_range)
            && content_of_occurrence(dc, occ, src) is Some && ((f == base && sy == occ.symbol@ && c
            == content_of_occurrence(dc, occ, src)->Some_0) || in_related_additions(
            index,
            store,
            lang,
            rp,
            src,
            occ.range,
            depth + 1,
            max_depth,
            f,
            sy,
            c,
        ))
    }
}

/// The snippet triples that resolving one candidate file of `name` may
/// add: the contributions of its occurrences.  A candidate whose
/// document, source or path is off record adds nothing.
pub open spec fn in_candidate_additions(
    index: Index,
    store: ContentStore,
    lang: SourceLanguage,
    rp: Seq<char>,
    id: Seq<u8>,
    name: Seq<char>,
    depth: int,
    max_depth: int,
    f: Seq<char>,
    sy: Seq<char>,
    c: Seq<char>,
) -> bool
    decreases max_depth - depth, 1int,
{
    match (
        doc_lookup(index.oid_to_document_context@, id),
        store_lookup(store.entries@, id),
        basename_lookup(index.oid_to_basename@, id),
    ) {
        (Some(dc), Some(src), Some(base)) => exists|j: int|
            0 <= j < dc.document.occurrences@.len() && in_occurrence_additions(
                index,
                store,
                lang,
                rp,
                dc,
                #[trigger] dc.document.occurrences@[j],
                src,
                base,
                name,
                depth,
                max_depth,
                f,
                sy,
                c,
            ),
        _ => false,
    }
}

/// The snippet triples that resolving `name` at `depth` adds to the
/// set: the contributions of every candidate file the reverse lookup
/// holds for `(lang, name)`.  This is the exact membership bound of
/// `symbol_snippets_from_identifier`: the resolver's result is a
/// function of the index, the store, the related pattern and the
/// identifier, with the hop budget `max_depth - depth` shrinking by
/// one on every related hop.
pub open spec fn in_resolution(
    index: Index,
    store: ContentStore,
    lang: SourceLanguage,
    rp: Seq<char>,
    name: Seq<char>,
    depth: int,
    max_depth: int,
    f: Seq<char>,
    sy: Seq<char>,
    c: Seq<char>,
) -> bool
    decreases max_depth - depth, 2int,
{
    depth < max_depth && exists|id: Seq<u8>|
        #[trigger] name_maps(index.lang_and_name_to_oids@, lang, name, id)
            && in_candidate_additions(index, store, lang, rp, id, name, depth, max_depth, f, sy, c)
}

/// The snippet triples that the related hop at a declaration site may
/// add: for each identifier the related-sibling pattern yields at that
/// site, its resolution at the same depth.  Nothing when the pattern
/// yields no match list for the source.
pub open spec fn in_related_additions(
    index: Index,
    store: ContentStore,
    lang: SourceLanguage,
    rp: Seq<char>,
    content: Seq<char>,
    decl: Range,
    depth: int,
    max_depth: int,
    f: Seq<char>,
    sy: Seq<char>,
    c: Seq<char>,
) -> bool
    decreases max_depth - depth, 3int,
{
    depth < max_depth && match ts_matches(rp, content) {
        Some(ms) => exists|k: int|
            0 <= k < related_ids(ms, decl).len() && in_resolution(
                index,
                store,
                lang,
                rp,
                #[trigger] related_ids(ms, decl)[k],
                depth,
                max_depth,
                f,
                sy,
                c,
            ),
        None => false,
    }
}

/// The snippet triples a whole context query may produce: for each
/// seed identifier in scope at the cursor, its resolution.
pub open spec fn in_seeded(
    index: Index,
    store: ContentStore,
    lang: SourceLanguage,
    cp: Seq<char>,
    rp: Seq<char>,
    content: Seq<char>,
    cursor: Position,
    depth: int,
    max_depth: int,
    f: Seq<char>,
    sy: Seq<char>,
    c: Seq<char>,
) -> bool {
    match ts_matches(cp, content) {
        Some(ms) => exists|k: int|
            0 <= k < seed_ids(ms, cursor).len() && in_resolution(
                index,
                store,
                lang,
                rp,
                #[trigger] seed_ids(ms, cursor)[k],
                depth,
                max_depth,
                f,
                sy,
                c,
            ),
        None => false,
    }
}

/// Everything a resolution may add is justified by an indexed
/// occurrence with a definitional body.
proof fn lemma_resolution_justified(
    index: Index,
    store: ContentStore,
    lang: SourceLanguage,
    rp: Seq<char>,
    name: Seq<char>,
    depth: int,
    max_depth: int,
    f: Seq<char>,
    sy: Seq<char>,
    c: Seq<char>,
)
    requires
        in_resolution(index, store, lang, rp, name, depth, max_depth, f, sy, c),
    ensures
        justified(index, store, f, sy, c),
    decreases max_depth - depth, 1int,
{
    let id = choose|id: Seq<u8>|
        #[trigger] name_maps(index.lang_and_name_to_oids@, lang, name, id)
            && in_candidate_additions(index, store, lang, rp, id, name, depth, max_depth, f, sy, c);
    match (
        doc_lookup(index.oid_to_document_context@, id),
        store_lookup(store.entries@, id),
        basename_lookup(index.oid_to_basename@, id),
    ) {
        (Some(dc), Some(src), Some(base)) => {
            let j = choose|j: int|
                0 <= j < dc.document.occurrences@.len() && in_occurrence_additions(
                    index,
                    store,
                    lang,
                    rp,
                    dc,
                    #[trigger] dc.document.occurrences@[j],
                    src,
                    base,
                    name,
                    depth,
                    max_depth,
                    f,
                    sy,
                    c,
                );
            let occ = dc.document.occurrences@[j];
            if f == base && sy == occ.symbol@ && c == content_of_occurrence(dc, occ, src)->Some_0 {
                lemma_doc_lookup_is_entry(index.oid_to_document_context@, id);
                let di = choose|di: int|
                    0 <= di < index.oid_to_document_context@.len() && (
                    #[trigger] index.oid_to_document_context@[di]).0@ == id
                        && index.oid_to_document_context@[di].1 == doc_lookup(
                        index.oid_to_document_context@,
                        id,
                    )->Some_0;
                assert(justified_at(index, store, f, sy, c, di, j));
                assert(justified(index, store, f, sy, c));
            } else {
                assert(depth < max_depth);
                lemma_related_justified(
                    index,
                    store,
                    lang,
                    rp,
                    src,
                    occ.range,
                    depth + 1,
                    max_depth,
                    f,
                    sy,
                    c,
                );
            }
        },
        _ => {
            assert(false);
        },
    }
}

/// Everything a related hop may add is justified.
proof fn lemma_related_justified(
    index: Index,
    store: ContentStore,
    lang: SourceLanguage,
    rp: Seq<char>,
    content: Seq<char>,
    decl: Range,
    depth: int,
    max_depth: int,
    f: Seq<char>,
    sy: Seq<char>,
    c: Seq<char>,
)
    requires
        in_related_additions(index, store, lang, rp, content, decl, depth, max_depth, f, sy, c),
    ensures
        justified(index, store, f, sy, c),
    decreases max_depth - depth, 2int,
{
    match ts_matches(rp, content) {
        Some(ms) => {
            let k = choose|k: int|
                0 <= k < related_ids(ms, decl).len() && in_resolution(
                    index,
                    store,
                    lang,
                    rp,
                    #[trigger] related_ids(ms, decl)[k],
                    depth,
                    max_depth,
                    f,
                    sy,
                    c,
                );
            lemma_resolution_justified(
                index,
                store,
                lang,
                rp,
                related_ids(ms, decl)[k],
                depth,
                max_depth,
                f,
                sy,
                c,
            );
        },
        None => {
            assert(false);
        },
    }
}

/// A set that holds everything `name`'s resolution may add covers
/// everything the reverse lookup owes that name.
proof fn lemma_due_from_resolution(
    index: Index,
    store: ContentStore,
    lang: SourceLanguage,
    rp: Seq<char>,
    name: Seq<char>,
    depth: int,
    max_depth: int,
    items: Seq<SymbolContextSnippet>,
)
    requires
        depth < max_depth,
        forall|f: Seq<char>, sy: Seq<char>, c: Seq<char>|
            #[trigger] in_resolution(index, store, lang, rp, name, depth, max_depth, f, sy, c)
                ==> set_has(items, f, sy, c),
    ensures
        due_present(index, store, lang, name, items),
{
    assert forall|id: Seq<u8>|
        #[trigger] name_maps(index.lang_and_name_to_oids@, lang, name, id) implies due_present_for(
        index,
        store,
        name,
        id,
        items,
    ) by {
        match (
            doc_lookup(index.oid_to_document_context@, id),
            store_lookup(store.entries@, id),
            basename_lookup(index.oid_to_basename@, id),
        ) {
            (Some(dc), Some(src), Some(base)) => {
                assert forall|oj: int| 0 <= oj < dc.document.occurrences@.len() implies occ_covered(
                    dc,
                    #[trigger] dc.document.occurrences@[oj],
                    src,
                    base,
                    name,
                    items,
                ) by {
                    let occ = dc.document.occurrences@[oj];
                    if simple_name_of(occ.symbol@) == Some(name) && !range_is_empty(
                        occ.enclosing_range,
                    ) && content_of_occurrence(dc, occ, src) is Some {
                        let cc = content_of_occurrence(dc, occ, src)->Some_0;
                        assert(in_occurrence_additions(
                            index,
                            store,
                            lang,
                            rp,
                            dc,
                            occ,
                            src,
                            base,
                            name,
                            depth,
                            max_depth,
                            base,
                            occ.symbol@,
                            cc,
                        ));
                        assert(in_candidate_additions(
                            index,
                            store,
                            lang,
                            rp,
                            id,
                            name,
                            depth,
                            max_depth,
                            base,
                            occ.symbol@,
                            cc,
                        ));
                        assert(in_resolution(
                            index,
                            store,
                            lang,
                            rp,
                            name,
                            depth,
                            max_depth,
                            base,
                            occ.symbol@,
                            cc,
                        ));
                        assert(set_has(items, base, occ.symbol@, cc));
                    }
                }
            },
            _ => {},
        }
    }
}


/// Resolves one identifier against the index: for every candidate file
/// of `(runner.language, identifier)` and every occurrence in it whose
/// symbol's simple name is the identifier and whose enclosing range is
/// non-empty, inserts the snippet — the recorded signature text, or
/// the enclosing range's slice of the file's source — and recurses
/// through the identifiers related to the occurrence's declaration
/// site, one hop deeper.  The contract is exact: a snippet is in the
/// final set iff it was there before or `in_resolution` owes it, so
/// the result is a function of the inputs, a repeated call adds
/// nothing, an unknown identifier changes nothing, and at
/// `depth >= max_depth` the call is a no-op — no snippet is reached
/// through more than `max_depth` related hops.
#[verifier::loop_isolation(false)]
pub fn symbol_snippets_from_identifier(
    snippets: &mut SnippetSet,
    store: &ContentStore,
    index: &Index,
    runner: &QueryRunner,
    identifier: &str,
    depth: u8,
    max_depth: u8,
)
    requires
        old(snippets).wf(),
    ensures
        final(snippets).wf(),
        forall|f: Seq<char>, sy: Seq<char>, c: Seq<char>|
            #[trigger] set_has(final(snippets).items@, f, sy, c) == (set_has(
                old(snippets).items@,
                f,
                sy,
                c,
            ) || in_resolution(
                *index,
                *store,
                runner.language,
                runner.related_pattern@,
                identifier@,
                depth as int,
                max_depth as int,
                f,
                sy,
                c,
            )),
        set_extends(old(snippets).items@, final(snippets).items@),
        additions_justified(*index, *store, old(snippets).items@, final(snippets).items@),
        depth >= max_depth ==> *final(snippets) == *old(snippets),
        depth < max_depth ==> due_present(
            *index,
            *store,
            runner.language,
            identifier@,
            final(snippets).items@,
        ),
        (forall|id: Seq<u8>|
            !(#[trigger] name_maps(
                index.lang_and_name_to_oids@,
                runner.language,
                identifier@,
                id,
            ))) ==> *final(snippets) == *old(snippets),
    decreases max_depth as int - depth as int, 0int,
{
    let ghost lang = runner.language;
    let ghost rp = runner.related_pattern@;
    let ghost d = depth as int;
    let ghost m = max_depth as int;
    if depth >= max_depth {
        return ;
    }
    let ghost initial = snippets.items@;
    let candidates = index.candidates(runner.language, identifier);
    let nc = candidates.len();
    let mut ci: usize = 0;
    while ci < nc
        invariant
            0 <= ci <= nc,
            nc == candidates@.len(),
            snippets.wf(),
            nc == 0 ==> *snippets == *old(snippets),
            forall|f: Seq<char>, sy: Seq<char>, c: Seq<char>|
                #[trigger] set_has(snippets.items@, f, sy, c) == (set_has(initial, f, sy, c)
                    || exists|ck: int|
                    0 <= ck < ci && in_candidate_additions(
                        *index,
                        *store,
                        lang,
                        rp,
                        (#[trigger] candidates@[ck])@,
                        identifier@,
                        d,
                        m,
                        f,
                        sy,
                        c,
                    )),
        decreases nc - ci,
    {
        let ghost items_at_candidate = snippets.items@;
        let id = candidates[ci];
        let dc_opt = index.document_for(&id);
        let src_opt = store.read(&id);
        let base_opt = index.basename_for(&id);
        match (dc_opt, src_opt, base_opt) {
            (Some(dc), Some(source), Some(base)) => {
                let ghost dcg = *dc;
                let no = dc.document.occurrences.len();
                let mut oj: usize = 0;
                while oj < no
                    invariant
                        0 <= oj <= no,
                        no == dcg.document.occurrences@.len(),
                        snippets.wf(),
                        forall|f: Seq<char>, sy: Seq<char>, c: Seq<char>|
                            #[trigger] set_has(snippets.items@, f, sy, c) == (set_has(
                                items_at_candidate,
                                f,
                                sy,
                                c,
                            ) || exists|j: int|
                                0 <= j < oj && in_occurrence_additions(
                                    *index,
                                    *store,
                                    lang,
                                    rp,
                                    dcg,
                                    #[trigger] dcg.document.occurrences@[j],
                                    source@,
                                    base@,
                                    identifier@,
                                    d,
                                    m,
                                    f,
                                    sy,
                                    c,
                                )),
                    decreases no - oj,
                {
                    let ghost items_at_occ = snippets.items@;
                    let occ = &dc.document.occurrences[oj];
                    let ghost gocc = dcg.document.occurrences@[oj as int];
                    if symbol_has_simple_name(occ.symbol.as_str(), identifier) {
                        if !occ.enclosing_range.is_empty() {
                            let content_opt: Option<String> = match signature_for(
                                dc,
                                occ.symbol.as_str(),
                            ) {
                                Some(sig) => Some(sig.clone()),
                                None => slice_range(source.as_str(), &occ.enclosing_range),
                            };
                            match content_opt {
                                Some(ctext) => {
                                    proof {
                                        assert(content_of_occurrence(dcg, gocc, source@) == Some(
                                            ctext@,
                                        ));
                                    }
                                    let snip = SymbolContextSnippet {
                                        file_name: base.clone(),
                                        symbol: occ.symbol.clone(),
                                        content: ctext,
                                    };
                                    let ghost gsnip = snip;
                                    snippets.insert(snip);
                                    let ghost after_insert = snippets.items@;
                                    find_related_symbol_snippets(
                                        snippets,
                                        store,
                                        index,
                                        runner,
                                        source.as_str(),
                                        occ.range,
                                        depth + 1,
                                        max_depth,
                                    );
                                    proof {
                                        assert forall|f: Seq<char>, sy: Seq<char>, c: Seq<char>|
                                            #[trigger] set_has(snippets.items@, f, sy, c) == (
                                        set_has(items_at_occ, f, sy, c)
                                            || in_occurrence_additions(
                                            *index,
                                            *store,
                                            lang,
                                            rp,
                                            dcg,
                                            gocc,
                                            source@,
                                            base@,
                                            identifier@,
                                            d,
                                            m,
                                            f,
                                            sy,
                                            c,
                                        )) by {
                                            if set_has(snippets.items@, f, sy, c) {
                                                if set_has(after_insert, f, sy, c) {
                                                    if !set_has(items_at_occ, f, sy, c) {
                                                        assert(f == gsnip.file_name@ && sy
                                                            == gsnip.symbol@ && c
                                                            == gsnip.content@);
                                                        assert(in_occurrence_additions(
                                                            *index,
                                                            *store,
                                                            lang,
                                                            rp,
                                                            dcg,
                                                            gocc,
                                                            source@,
                                                            base@,
                                                            identifier@,
                                                            d,
                                                            m,
                                                            f,
                                                            sy,
                                                            c,
                                                        ));
                                                    }
                                                } else {
                                                    assert(in_related_additions(
                                                        *index,
                                                        *store,
                                                        lang,
                                                        rp,
                                                        source@,
                                                        gocc.range,
                                                        d + 1,
                                                        m,
                                                        f,
                                                        sy,
                                                        c,
                                                    ));
                                                }
                                            }
                                            if set_has(items_at_occ, f, sy, c) {
                                                assert(set_has(after_insert, f, sy, c));
                                                assert(set_has(snippets.items@, f, sy, c));
                                            }
                                            if in_occurrence_additions(
                                                *index,
                                                *store,
                                                lang,
                                                rp,
                                                dcg,
                                                gocc,
                                                source@,
                                                base@,
                                                identifier@,
                                                d,
                                                m,
                                                f,
                                                sy,
                                                c,
                                            ) {
                                                if f == base@ && sy == gocc.symbol@ && c
                                                    == content_of_occurrence(
                                                    dcg,
                                                    gocc,
                                                    source@,
                                                )->Some_0 {
                                                    assert(set_has(after_insert, f, sy, c));
                                                    assert(set_has(snippets.items@, f, sy, c));
                                                } else {
                                                    assert(in_related_additions(
                                                        *index,
                                                        *store,
                                                        lang,
                                                        rp,
                                                        source@,
                                                        gocc.range,
                                                        d + 1,
                                                        m,
                                                        f,
                                                        sy,
                                                        c,
                                                    ));
                                                    assert(set_has(snippets.items@, f, sy, c));
                                                }
                                            }
                                        }
                                    }
                                },
                                None => {
                                    proof {
                                        assert(content_of_occurrence(dcg, gocc, source@) is None);
                                    }
                                },
                            }
                        }
                    }
                    proof {
                        assert forall|f: Seq<char>, sy: Seq<char>, c: Seq<char>|
                            #[trigger] set_has(snippets.items@, f, sy, c) == (set_has(
                            items_at_candidate,
                            f,
                            sy,
                            c,
                        ) || exists|j: int|
                            0 <= j < oj + 1 && in_occurrence_additions(
                                *index,
                                *store,
                                lang,
                                rp,
                                dcg,
                                #[trigger] dcg.document.occurrences@[j],
                                source@,
                                base@,
                                identifier@,
                                d,
                                m,
                                f,
                                sy,
                                c,
                            )) by {
                            if set_has(snippets.items@, f, sy, c) {
                                if set_has(items_at_occ, f, sy, c) {
                                    if !set_has(items_at_candidate, f, sy, c) {
                                        let j = choose|j: int|
                                            0 <= j < oj && in_occurrence_additions(
                                                *index,
                                                *store,
                                                lang,
                                                rp,
                                                dcg,
                                                #[trigger] dcg.document.occurrences@[j],
                                                source@,
                                                base@,
                                                identifier@,
                                                d,
                                                m,
                                                f,
                                                sy,
                                                c,
                                            );
                                        assert(0 <= j < oj + 1 && in_occurrence_additions(
                                            *index,
                                            *store,
                                            lang,
                                            rp,
                                            dcg,
                                            dcg.document.occurrences@[j],
                                            source@,
                                            base@,
                                            identifier@,
                                            d,
                                            m,
                                            f,
                                            sy,
                                            c,
                                        ));
                                    }
                                } else {
                                    assert(in_occurrence_additions(
                                        *index,
                                        *store,
                                        lang,
                                        rp,
                                        dcg,
                                        dcg.document.occurrences@[oj as int],
                                        source@,
                                        base@,
                                        identifier@,
                                        d,
                                        m,
                                        f,
                                        sy,
                                        c,
                                    ));
                                }
                            }
                            if set_has(items_at_candidate, f, sy, c) {
                                assert(set_has(items_at_occ, f, sy, c));
                                assert(set_has(snippets.items@, f, sy, c));
                            }
                            if exists|j: int|
                                0 <= j < oj + 1 && in_occurrence_additions(
                                    *index,
                                    *store,
                                    lang,
                                    rp,
                                    dcg,
                                    #[trigger] dcg.document.occurrences@[j],
                                    source@,
                                    base@,
                                    identifier@,
                                    d,
                                    m,
                                    f,
                                    sy,
                                    c,
                                ) {
                                let j = choose|j: int|
                                    0 <= j < oj + 1 && in_occurrence_additions(
                                        *index,
                                        *store,
                                        lang,
                                        rp,
                                        dcg,
                                        #[trigger] dcg.document.occurrences@[j],
                                        source@,
                                        base@,
                                        identifier@,
                                        d,
                                        m,
                                        f,
                                        sy,
                                        c,
                                    );
                                if j < oj {
                                    assert(set_has(items_at_occ, f, sy, c));
                                }
                                assert(set_has(snippets.items@, f, sy, c));
                            }
                        }
                    }
                    oj = oj + 1;
                }
                proof {
                    let idv = candidates@[ci as int]@;
                    assert(doc_lookup(index.oid_to_document_context@, idv) == Some(dcg));
                    assert(store_lookup(store.entries@, idv) == Some(source@));
                    assert(basename_lookup(index.oid_to_basename@, idv) == Some(base@));
                    assert forall|f: Seq<char>, sy: Seq<char>, c: Seq<char>|
                        #[trigger] set_has(snippets.items@, f, sy, c) == (set_has(
                        items_at_candidate,
                        f,
                        sy,
                        c,
                    ) || in_candidate_additions(
                        *index,
                        *store,
                        lang,
                        rp,
                        candidates@[ci as int]@,
                        identifier@,
                        d,
                        m,
                        f,
                        sy,
                        c,
                    )) by {
                        if set_has(snippets.items@, f, sy, c) && !set_has(
                            items_at_candidate,
                            f,
                            sy,
                            c,
                        ) {
                            let j = choose|j: int|
                                0 <= j < no && in_occurrence_additions(
                                    *index,
                                    *store,
                                    lang,
                                    rp,
                                    dcg,
                                    #[trigger] dcg.document.occurrences@[j],
                                    source@,
                                    base@,
                                    identifier@,
                                    d,
                                    m,
                                    f,
                                    sy,
                                    c,
                                );
                            let dc2 = doc_lookup(index.oid_to_document_context@, idv)->Some_0;
                            let src2 = store_lookup(store.entries@, idv)->Some_0;
                            let base2 = basename_lookup(index.oid_to_basename@, idv)->Some_0;
                            assert(dc2 == dcg && src2 == source@ && base2 == base@);
                            assert(0 <= j < dc2.document.occurrences@.len()
                                && in_occurrence_additions(
                                *index,
                                *store,
                                lang,
                                rp,
                                dc2,
                                dc2.document.occurrences@[j],
                                src2,
                                base2,
                                identifier@,
                                d,
                                m,
                                f,
                                sy,
                                c,
                            ));
                            assert(in_candidate_additions(
                                *index,
                                *store,
                                lang,
                                rp,
                                idv,
                                identifier@,
                                d,
                                m,
                                f,
                                sy,
                                c,
                            ));
                        }
                        if in_candidate_additions(
                            *index,
                            *store,
                            lang,
                            rp,
                            idv,
                            identifier@,
                            d,
                            m,
                            f,
                            sy,
                            c,
                        ) {
                            let dc2 = doc_lookup(index.oid_to_document_context@, idv)->Some_0;
                            assert(dc2 == dcg);
                            let j = choose|j: int|
                                0 <= j < dc2.document.occurrences@.len()
                                    && in_occurrence_additions(
                                    *index,
                                    *store,
                                    lang,
                                    rp,
                                    dc2,
                                    #[trigger] dc2.document.occurrences@[j],
                                    store_lookup(store.entries@, idv)->Some_0,
                                    basename_lookup(index.oid_to_basename@, idv)->Some_0,
                                    identifier@,
                                    d,
                                    m,
                                    f,
                                    sy,
                                    c,
                                );
                            assert(dcg.document.occurrences@[j] == dc2.document.occurrences@[j]);
                            assert(set_has(snippets.items@, f, sy, c));
                        }
                    }
                }
            },
            _ => {
                proof {
                    assert forall|f: Seq<char>, sy: Seq<char>, c: Seq<char>|
                        !(#[trigger] in_candidate_additions(
                            *index,
                            *store,
                            lang,
                            rp,
                            candidates@[ci as int]@,
                            identifier@,
                            d,
                            m,
                            f,
                            sy,
                            c,
                        )) by {
                        match dc_opt {
                            Some(_) => {
                                match src_opt {
                                    Some(_) => {},
                                    None => {},
                                }
                            },
                            None => {},
                        }
                    }
                }
            },
        }
        proof {
            assert forall|f: Seq<char>, sy: Seq<char>, c: Seq<char>|
                #[trigger] set_has(snippets.items@, f, sy, c) == (set_has(initial, f, sy, c)
                    || exists|ck: int|
                    0 <= ck < ci + 1 && in_candidate_additions(
                        *index,
                        *store,
                        lang,
                        rp,
                        (#[trigger] candidates@[ck])@,
                        identifier@,
                        d,
                        m,
                        f,
                        sy,
                        c,
                    )) by {
                if set_has(snippets.items@, f, sy, c) {
                    if set_has(items_at_candidate, f, sy, c) {
                        if !set_has(initial, f, sy, c) {
                            let ck = choose|ck: int|
                                0 <= ck < ci && in_candidate_additions(
                                    *index,
                                    *store,
                                    lang,
                                    rp,
                                    (#[trigger] candidates@[ck])@,
                                    identifier@,
                                    d,
                                    m,
                                    f,
                                    sy,
                                    c,
                                );
                            assert(0 <= ck < ci + 1 && in_candidate_additions(
                                *index,
                                *store,
                                lang,
                                rp,
                                (candidates@[ck])@,
                                identifier@,
                                d,
                                m,
                                f,
                                sy,
                                c,
                            ));
                        }
                    } else {
                        assert(0 <= ci < ci + 1 && in_candidate_additions(
                            *index,
                            *store,
                            lang,
                            rp,
                            (candidates@[ci as int])@,
                            identifier@,
                            d,
                            m,
                            f,
                            sy,
                            c,
                        ));
                    }
                }
                if set_has(initial, f, sy, c) {
                    assert(set_has(items_at_candidate, f, sy, c));
                    assert(set_has(snippets.items@, f, sy, c));
                }
                if exists|ck: int|
                    0 <= ck < ci + 1 && in_candidate_additions(
                        *index,
                        *store,
                        lang,
                        rp,
                        (#[trigger] candidates@[ck])@,
                        identifier@,
                        d,
                        m,
                        f,
                        sy,
                        c,
                    ) {
                    let ck = choose|ck: int|
                        0 <= ck < ci + 1 && in_candidate_additions(
                            *index,
                            *store,
                            lang,
                            rp,
                            (#[trigger] candidates@[ck])@,
                            identifier@,
                            d,
                            m,
                            f,
                            sy,
                            c,
                        );
                    if ck < ci {
                        assert(set_has(items_at_candidate, f, sy, c));
                    }
                    assert(set_has(snippets.items@, f, sy, c));
                }
            }
        }
        ci = ci + 1;
    }
    proof {
        if nc > 0 {
            assert(name_maps(index.lang_and_name_to_oids@, lang, identifier@, candidates@[0]@));
        }
        assert forall|f: Seq<char>, sy: Seq<char>, c: Seq<char>|
            #[trigger] set_has(snippets.items@, f, sy, c) == (set_has(initial, f, sy, c)
                || in_resolution(*index, *store, lang, rp, identifier@, d, m, f, sy, c)) by {
            if set_has(snippets.items@, f, sy, c) && !set_has(initial, f, sy, c) {
                let ck = choose|ck: int|
                    0 <= ck < nc && in_candidate_additions(
                        *index,
                        *store,
                        lang,
                        rp,
                        (#[trigger] candidates@[ck])@,
                        identifier@,
                        d,
                        m,
                        f,
                        sy,
                        c,
                    );
                assert(name_maps(index.lang_and_name_to_oids@, lang, identifier@, candidates@[ck]@));
                assert(in_resolution(*index, *store, lang, rp, identifier@, d, m, f, sy, c));
            }
            if in_resolution(*index, *store, lang, rp, identifier@, d, m, f, sy, c) {
                let idv = choose|idv: Seq<u8>|
                    #[trigger] name_maps(index.lang_and_name_to_oids@, lang, identifier@, idv)
                        && in_candidate_additions(
                        *index,
                        *store,
                        lang,
                        rp,
                        idv,
                        identifier@,
                        d,
                        m,
                        f,
                        sy,
                        c,
                    );
                let ck = choose|ck: int| 0 <= ck < candidates@.len() && (#[trigger] candidates@[ck])@
                    == idv;
                assert(in_candidate_additions(
                    *index,
                    *store,
                    lang,
                    rp,
                    (candidates@[ck])@,
                    identifier@,
                    d,
                    m,
                    f,
                    sy,
                    c,
                ));
                assert(set_has(snippets.items@, f, sy, c));
            }
        }
        assert forall|f: Seq<char>, sy: Seq<char>, c: Seq<char>|
            #[trigger] set_has(snippets.items@, f, sy, c) implies set_has(initial, f, sy, c)
            || justified(*index, *store, f, sy, c) by {
            if !set_has(initial, f, sy, c) {
                lemma_resolution_justified(
                    *index,
                    *store,
                    lang,
                    rp,
                    identifier@,
                    d,
                    m,
                    f,
                    sy,
                    c,
                );
            }
        }
        assert forall|f: Seq<char>, sy: Seq<char>, c: Seq<char>|
            #[trigger] in_resolution(*index, *store, lang, rp, identifier@, d, m, f, sy, c)
                implies set_has(snippets.items@, f, sy, c) by {}
        lemma_due_from_resolution(*index, *store, lang, rp, identifier@, d, m, snippets.items@);
    }
}

/// Discovers the identifiers related to the declaration site at
/// `identifier_range` in `content` and resolves each at the given
/// depth.  The contract is exact over `in_related_additions`: with no
/// match list for the source (a non-fatal skip), or no match whose
/// name-range equals the declaration range, or the depth exhausted,
/// the set is left exactly as it was.
#[verifier::loop_isolation(false)]
pub fn find_related_symbol_snippets(
    snippets: &mut SnippetSet,
    store: &ContentStore,
    index: &Index,
    runner: &QueryRunner,
    content: &str,
    identifier_range: Range,
    depth: u8,
    max_depth: u8,
)
    requires
        old(snippets).wf(),
    ensures
        final(snippets).wf(),
        forall|f: Seq<char>, sy: Seq<char>, c: Seq<char>|
            #[trigger] set_has(final(snippets).items@, f, sy, c) == (set_has(
                old(snippets).items@,
                f,
                sy,
                c,
            ) || in_related_additions(
                *index,
                *store,
                runner.language,
                runner.related_pattern@,
                content@,
                identifier_range,
                depth as int,
                max_depth as int,
                f,
                sy,
                c,
            )),
        set_extends(old(snippets).items@, final(snippets).items@),
        additions_justified(*index, *store, old(snippets).items@, final(snippets).items@),
        depth >= max_depth ==> *final(snippets) == *old(snippets),
        ts_matches(runner.related_pattern@, content@) is None ==> *final(snippets) == *old(
            snippets,
        ),
        (ts_matches(runner.related_pattern@, content@) matches Some(ms) && related_ids(
            ms,
            identifier_range,
        ).len() == 0) ==> *final(snippets) == *old(snippets),
    decreases max_depth as int - depth as int, 1int,
{
    let ghost lang = runner.language;
    let ghost rp = runner.related_pattern@;
    let ghost d = depth as int;
    let ghost m = max_depth as int;
    if depth >= max_depth {
        return ;
    }
    let ghost initial = snippets.items@;
    let ids = match runner.related_identifiers(content, identifier_range) {
        Ok(ids) => ids,
        Err(_) => {
            return ;
        },
    };
    let ghost ms = ts_matches(rp, content@)->Some_0;
    let ghost rids = related_ids(ms, identifier_range);
    proof {
        assert(ids@.map_values(|s: String| s@) == rids);
        assert(ids@.len() == rids.len());
    }
    let n = ids.len();
    let mut i: usize = 0;
    while i < n
        invariant
            0 <= i <= n,
            n == ids@.len(),
            n == rids.len(),
            snippets.wf(),
            n == 0 ==> *snippets == *old(snippets),
            forall|f: Seq<char>, sy: Seq<char>, c: Seq<char>|
                #[trigger] set_has(snippets.items@, f, sy, c) == (set_has(initial, f, sy, c)
                    || exists|k: int|
                    0 <= k < i && in_resolution(
                        *index,
                        *store,
                        lang,
                        rp,
                        #[trigger] rids[k],
                        d,
                        m,
                        f,
                        sy,
                        c,
                    )),
        decreases n - i,
    {
        let ghost items_before = snippets.items@;
        proof {
            assert(ids@.map_values(|s: String| s@)[i as int] == ids@[i as int]@);
            assert(ids@[i as int]@ == rids[i as int]);
        }
        symbol_snippets_from_identifier(
            snippets,
            store,
            index,
            runner,
            ids[i].as_str(),
            depth,
            max_depth,
        );
        proof {
            assert forall|f: Seq<char>, sy: Seq<char>, c: Seq<char>|
                #[trigger] set_has(snippets.items@, f, sy, c) == (set_has(initial, f, sy, c)
                    || exists|k: int|
                    0 <= k < i + 1 && in_resolution(
                        *index,
                        *store,
                        lang,
                        rp,
                        #[trigger] rids[k],
                        d,
                        m,
                        f,
                        sy,
                        c,
                    )) by {
                if set_has(snippets.items@, f, sy, c) {
                    if set_has(items_before, f, sy, c) {
                        if !set_has(initial, f, sy, c) {
                            let k = choose|k: int|
                                0 <= k < i && in_resolution(
                                    *index,
                                    *store,
                                    lang,
                                    rp,
                                    #[trigger] rids[k],
                                    d,
                                    m,
                                    f,
                                    sy,
                                    c,
                                );
                            assert(0 <= k < i + 1 && in_resolution(
                                *index,
                                *store,
                                lang,
                                rp,
                                rids[k],
                                d,
                                m,
                                f,
                                sy,
                                c,
                            ));
                        }
                    } else {
                        assert(in_resolution(
                            *index,
                            *store,
                            lang,
                            rp,
                            rids[i as int],
                            d,
                            m,
                            f,
                            sy,
                            c,
                        ));
                        assert(0 <= i < i + 1);
                    }
                }
                if set_has(initial, f, sy, c) {
                    assert(set_has(items_before, f, sy, c));
                    assert(set_has(snippets.items@, f, sy, c));
                }
                if exists|k: int|
                    0 <= k < i + 1 && in_resolution(
                        *index,
                        *store,
                        lang,
                        rp,
                        #[trigger] rids[k],
                        d,
                        m,
                        f,
                        sy,
                        c,
                    ) {
                    let k = choose|k: int|
                        0 <= k < i + 1 && in_resolution(
                            *index,
                            *store,
                            lang,
                            rp,
                            #[trigger] rids[k],
                            d,
                            m,
                            f,
                            sy,
                            c,
                        );
                    if k < i {
                        assert(set_has(items_before, f, sy, c));
                    } else {
                        assert(rids[k] == ids@[i as int]@);
                    }
                    assert(set_has(snippets.items@, f, sy, c));
                }
            }
        }
        i = i + 1;
    }
    proof {
        assert forall|f: Seq<char>, sy: Seq<char>, c: Seq<char>|
            #[trigger] set_has(snippets.items@, f, sy, c) == (set_has(initial, f, sy, c)
                || in_related_additions(
                *index,
                *store,
                lang,
                rp,
                content@,
                identifier_range,
                d,
                m,
                f,
                sy,
                c,
            )) by {}
        assert forall|f: Seq<char>, sy: Seq<char>, c: Seq<char>|
            #[trigger] set_has(snippets.items@, f, sy, c) implies set_has(initial, f, sy, c)
            || justified(*index, *store, f, sy, c) by {
            if !set_has(initial, f, sy, c) {
                lemma_related_justified(
                    *index,
                    *store,
                    lang,
                    rp,
                    content@,
                    identifier_range,
                    d,
                    m,
                    f,
                    sy,
                    c,
                );
            }
        }
    }
}

/// Collects the snippets for every symbol syntactically related to the
/// identifiers in scope at `position` inside `content`: each seed
/// identifier the cursor-context pattern yields is resolved at the
/// same depth — the depth grows only on related hops.  Fails, with the
/// set untouched, exactly when the grammar yields no match list for
/// `content`; an empty answer, for a cursor on whitespace say, is not
/// an error.
#[verifier::loop_isolation(false)]
pub fn symbol_snippets_near_cursor(
    snippets: &mut SnippetSet,
    store: &ContentStore,
    index: &Index,
    runner: &QueryRunner,
    content: &str,
    position: Position,
    depth: u8,
    max_depth: u8,
) -> (r: Result<(), ContextError>)
    requires
        old(snippets).wf(),
    ensures
        final(snippets).wf(),
        set_extends(old(snippets).items@, final(snippets).items@),
        additions_justified(*index, *store, old(snippets).items@, final(snippets).items@),
        r is Err <==> ts_matches(runner.cursor_pattern@, content@) is None,
        r matches Err(e) ==> e is Parse && *final(snippets) == *old(snippets),
        depth >= max_depth ==> *final(snippets) == *old(snippets),
        r is Ok ==> forall|f: Seq<char>, sy: Seq<char>, c: Seq<char>|
            #[trigger] set_has(final(snippets).items@, f, sy, c) == (set_has(
                old(snippets).items@,
                f,
                sy,
                c,
            ) || in_seeded(
                *index,
                *store,
                runner.language,
                runner.cursor_pattern@,
                runner.related_pattern@,
                content@,
                position,
                depth as int,
                max_depth as int,
                f,
                sy,
                c,
            )),
        r is Ok && depth < max_depth ==> forall|k: int|
            0 <= k < seed_ids(ts_matches(runner.cursor_pattern@, content@)->Some_0, position).len()
                ==> due_present(
                *index,
                *store,
                runner.language,
                #[trigger] seed_ids(
                    ts_matches(runner.cursor_pattern@, content@)->Some_0,
                    position,
                )[k],
                final(snippets).items@,
            ),
{
    let ghost lang = runner.language;
    let ghost cp = runner.cursor_pattern@;
    let ghost rp = runner.related_pattern@;
    let ghost d = depth as int;
    let ghost m = max_depth as int;
    let ghost initial = snippets.items@;
    let ids = match runner.seed_identifiers(content, position) {
        Ok(ids) => ids,
        Err(e) => {
            return Err(e);
        },
    };
    let ghost ms = ts_matches(cp, content@)->Some_0;
    let ghost sids = seed_ids(ms, position);
    proof {
        assert(ids@.map_values(|s: String| s@) == sids);
        assert(ids@.len() == sids.len());
    }
    let n = ids.len();
    let mut i: usize = 0;
    while i < n
        invariant
            0 <= i <= n,
            n == ids@.len(),
            n == sids.len(),
            snippets.wf(),
            depth >= max_depth ==> *snippets == *old(snippets),
            forall|f: Seq<char>, sy: Seq<char>, c: Seq<char>|
                #[trigger] set_has(snippets.items@, f, sy, c) == (set_has(initial, f, sy, c)
                    || exists|k: int|
                    0 <= k < i && in_resolution(
                        *index,
                        *store,
                        lang,
                        rp,
                        #[trigger] sids[k],
                        d,
                        m,
                        f,
                        sy,
                        c,
                    )),
        decreases n - i,
    {
        let ghost items_before = snippets.items@;
        proof {
            assert(ids@.map_values(|s: String| s@)[i as int] == ids@[i as int]@);
            assert(ids@[i as int]@ == sids[i as int]);
        }
        symbol_snippets_from_identifier(
            snippets,
            store,
            index,
            runner,
            ids[i].as_str(),
            depth,
            max_depth,
        );
        proof {
            assert forall|f: Seq<char>, sy: Seq<char>, c: Seq<char>|
                #[trigger] set_has(snippets.items@, f, sy, c) == (set_has(initial, f, sy, c)
                    || exists|k: int|
                    0 <= k < i + 1 && in_resolution(
                        *index,
                        *store,
                        lang,
                        rp,
                        #[trigger] sids[k],
                        d,
                        m,
                        f,
                        sy,
                        c,
                    )) by {
                if set_has(snippets.items@, f, sy, c) {
                    if set_has(items_before, f, sy, c) {
                        if !set_has(initial, f, sy, c) {
                            let k = choose|k: int|
                                0 <= k < i && in_resolution(
                                    *index,
                                    *store,
                                    lang,
                                    rp,
                                    #[trigger] sids[k],
                                    d,
                                    m,
                                    f,
                                    sy,
                                    c,
                                );
                            assert(0 <= k < i + 1 && in_resolution(
                                *index,
                                *store,
                                lang,
                                rp,
                                sids[k],
                                d,
                                m,
                                f,
                                sy,
                                c,
                            ));
                        }
                    } else {
                        assert(in_resolution(
                            *index,
                            *store,
                            lang,
                            rp,
                            sids[i as int],
                            d,
                            m,
                            f,
                            sy,
                            c,
                        ));
                        assert(0 <= i < i + 1);
                    }
                }
                if set_has(initial, f, sy, c) {
                    assert(set_has(items_before, f, sy, c));
                    assert(set_has(snippets.items@, f, sy, c));
                }
                if exists|k: int|
                    0 <= k < i + 1 && in_resolution(
                        *index,
                        *store,
                        lang,
                        rp,
                        #[trigger] sids[k],
                        d,
                        m,
                        f,
                        sy,
                        c,
                    ) {
                    let k = choose|k: int|
                        0 <= k < i + 1 && in_resolution(
                            *index,
                            *store,
                            lang,
                            rp,
                            #[trigger] sids[k],
                            d,
                            m,
                            f,
                            sy,
                            c,
                        );
                    if k < i {
                        assert(set_has(items_before, f, sy, c));
                    } else {
                        assert(sids[k] == ids@[i as int]@);
                    }
                    assert(set_has(snippets.items@, f, sy, c));
                }
            }
        }
        i = i + 1;
    }
    proof {
        assert forall|f: Seq<char>, sy: Seq<char>, c: Seq<char>|
            #[trigger] set_has(snippets.items@, f, sy, c) == (set_has(initial, f, sy, c)
                || in_seeded(*index, *store, lang, cp, rp, content@, position, d, m, f, sy, c))
            by {}
        assert forall|f: Seq<char>, sy: Seq<char>, c: Seq<char>|
            #[trigger] set_has(snippets.items@, f, sy, c) implies set_has(initial, f, sy, c)
            || justified(*index, *store, f, sy, c) by {
            if !set_has(initial, f, sy, c) {
                let k = choose|k: int|
                    0 <= k < sids.len() && in_resolution(
                        *index,
                        *store,
                        lang,
                        rp,
                        #[trigger] sids[k],
                        d,
                        m,
                        f,
                        sy,
                        c,
                    );
                lemma_resolution_justified(*index, *store, lang, rp, sids[k], d, m, f, sy, c);
            }
        }
        if depth < max_depth {
            assert forall|k: int| 0 <= k < sids.len() implies due_present(
                *index,
                *store,
                lang,
                #[trigger] sids[k],
                snippets.items@,
            ) by {
                assert forall|f: Seq<char>, sy: Seq<char>, c: Seq<char>|
                    #[trigger] in_resolution(*index, *store, lang, rp, sids[k], d, m, f, sy, c)
                        implies set_has(snippets.items@, f, sy, c) by {}
                lemma_due_from_resolution(*index, *store, lang, rp, sids[k], d, m, snippets.items@);
            }
        }
    }
    Ok(())
}

/// Answers one context query: the deduplicated snippet set for the
/// cursor position, characterized exactly by `in_seeded`, every
/// snippet justified by an indexed occurrence with a definitional
/// body, and the `files` slot — a placeholder for an unrelated
/// feature — always empty.  Fails exactly when the grammar yields no
/// match list for `content`.  With `max_depth == 0` the answer is
/// empty: seed identifiers start at depth zero and the traversal is
/// cut off at `max_depth`.
pub fn context_at_position(
    index: &Index,
    store: &ContentStore,
    runner: &QueryRunner,
    content: &str,
    position: Position,
    max_depth: u8,
) -> (r: Result<ContextAtPositionResponse, ContextError>)
    ensures
        r is Err <==> ts_matches(runner.cursor_pattern@, content@) is None,
        r matches Err(e) ==> e is Parse,
        r matches Ok(resp) ==> {
            &&& resp.files@.len() == 0
            &&& no_duplicate_snippets(resp.symbols@)
            &&& forall|i: int|
                0 <= i < resp.symbols@.len() ==> justified(
                    *index,
                    *store,
                    (#[trigger] resp.symbols@[i]).file_name@,
                    resp.symbols@[i].symbol@,
                    resp.symbols@[i].content@,
                )
            &&& forall|f: Seq<char>, sy: Seq<char>, c: Seq<char>|
                #[trigger] set_has(resp.symbols@, f, sy, c) == in_seeded(
                    *index,
                    *store,
                    runner.language,
                    runner.cursor_pattern@,
                    runner.related_pattern@,
                    content@,
                    position,
                    0,
                    max_depth as int,
                    f,
                    sy,
                    c,
                )
            &&& max_depth == 0 ==> resp.symbols@.len() == 0
        },
{
    let mut snippets = SnippetSet::new();
    match symbol_snippets_near_cursor(
        &mut snippets,
        store,
        index,
        runner,
        content,
        position,
        0,
        max_depth,
    ) {
        Ok(()) => {},
        Err(e) => {
            return Err(e);
        },
    }
    proof {
        assert forall|i: int| 0 <= i < snippets.items@.len() implies justified(
            *index,
            *store,
            (#[trigger] snippets.items@[i]).file_name@,
            snippets.items@[i].symbol@,
            snippets.items@[i].content@,
        ) by {
            let s = snippets.items@[i];
            assert(set_has(snippets.items@, s.file_name@, s.symbol@, s.content@));
        }
    }
    Ok(ContextAtPositionResponse { symbols: snippets.items, files: Vec::new() })
}

} // verus!
