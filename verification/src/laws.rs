//! Laws of the engine, stated on their own so a reader sees them
//! without mining the function contracts they follow from.

use vstd::prelude::*;

use crate::context::{
    content_of_occurrence, due_present, in_candidate_additions, in_occurrence_additions,
    in_related_additions, in_resolution, justified_at, occ_covered, set_has,
};
use crate::document::{signature_lookup, DocumentContext, Occurrence};
use crate::index::{
    basename_lookup, built_basename, built_doc, doc_lookup, name_maps, names_due, repo_lookup,
    Index, SourceFile, SourceLanguage,
};
use crate::store::ContentStore;
use crate::symbol::simple_name_of;
use crate::text::range_is_empty;
use crate::types::SymbolContextSnippet;

verus! {

/// Enclosing-range filter: an occurrence with an empty enclosing range
/// never produces a snippet.  No snippet whatever is justified at such
/// an occurrence, and the engine's contracts let a result hold only
/// justified snippets.
pub proof fn lemma_empty_enclosing_never_snippets(
    index: Index,
    store: ContentStore,
    file_name: Seq<char>,
    symbol: Seq<char>,
    content: Seq<char>,
    di: int,
    oj: int,
)
    requires
        0 <= di < index.oid_to_document_context@.len(),
        0 <= oj < index.oid_to_document_context@[di].1.document.occurrences@.len(),
        range_is_empty(
            index.oid_to_document_context@[di].1.document.occurrences@[oj].enclosing_range,
        ),
    ensures
        !justified_at(index, store, file_name, symbol, content, di, oj),
{
}

/// Signature precedence: when the document records signature text for
/// a matched symbol, the snippet text is that text exactly, never a
/// re-sliced substring of the source, even where the two differ.
pub proof fn lemma_signature_precedence(
    dc: DocumentContext,
    occ: Occurrence,
    source: Seq<char>,
    sig: Seq<char>,
)
    requires
        signature_lookup(dc, occ.symbol@) == Some(sig),
    ensures
        content_of_occurrence(dc, occ, source) == Some(sig),
{
}

/// Name-only matching is non-discriminating: two symbols in different
/// files that share a simple name under one language both contribute
/// their snippets to the same lookup's result — matching is by simple
/// name alone, never by full symbol.
pub proof fn lemma_name_only_matching(
    index: Index,
    store: ContentStore,
    lang: SourceLanguage,
    name: Seq<char>,
    items: Seq<SymbolContextSnippet>,
    id1: Seq<u8>,
    id2: Seq<u8>,
    dc1: DocumentContext,
    dc2: DocumentContext,
    src1: Seq<char>,
    src2: Seq<char>,
    base1: Seq<char>,
    base2: Seq<char>,
    oj1: int,
    oj2: int,
)
    requires
        due_present(index, store, lang, name, items),
        name_maps(index.lang_and_name_to_oids@, lang, name, id1),
        name_maps(index.lang_and_name_to_oids@, lang, name, id2),
        doc_lookup(index.oid_to_document_context@, id1) == Some(dc1),
        doc_lookup(index.oid_to_document_context@, id2) == Some(dc2),
        crate::store::store_lookup(store.entries@, id1) == Some(src1),
        crate::store::store_lookup(store.entries@, id2) == Some(src2),
        basename_lookup(index.oid_to_basename@, id1) == Some(base1),
        basename_lookup(index.oid_to_basename@, id2) == Some(base2),
        0 <= oj1 < dc1.document.occurrences@.len(),
        0 <= oj2 < dc2.document.occurrences@.len(),
        simple_name_of(dc1.document.occurrences@[oj1].symbol@) == Some(name),
        simple_name_of(dc2.document.occurrences@[oj2].symbol@) == Some(name),
        !range_is_empty(dc1.document.occurrences@[oj1].enclosing_range),
        !range_is_empty(dc2.document.occurrences@[oj2].enclosing_range),
        content_of_occurrence(dc1, dc1.document.occurrences@[oj1], src1) is Some,
        content_of_occurrence(dc2, dc2.document.occurrences@[oj2], src2) is Some,
    ensures
        set_has(
            items,
            base1,
            dc1.document.occurrences@[oj1].symbol@,
            content_of_occurrence(dc1, dc1.document.occurrences@[oj1], src1)->Some_0,
        ),
        set_has(
            items,
            base2,
            dc2.document.occurrences@[oj2].symbol@,
            content_of_occurrence(dc2, dc2.document.occurrences@[oj2], src2)->Some_0,
        ),
{
    assert(crate::context::due_present_for(index, store, name, id1, items));
    assert(crate::context::due_present_for(index, store, name, id2, items));
    assert(doc_lookup(index.oid_to_document_context@, id1)->Some_0.document.occurrences@[oj1]
        == dc1.document.occurrences@[oj1]);
    assert(doc_lookup(index.oid_to_document_context@, id2)->Some_0.document.occurrences@[oj2]
        == dc2.document.occurrences@[oj2]);
    assert(occ_covered(dc1, dc1.document.occurrences@[oj1], src1, base1, name, items));
    assert(occ_covered(dc2, dc2.document.occurrences@[oj2], src2, base2, name, items));
}

/// Index invariant: every content id the reverse lookup was owed a row
/// for has a document and a file path on record — `build_index`
/// guarantees both sides, so no lookup that finds a candidate can find
/// its document or its attribution missing.
pub proof fn lemma_names_have_documents(
    files: Seq<SourceFile>,
    lang: SourceLanguage,
    name: Seq<char>,
    id: Seq<u8>,
)
    requires
        names_due(files, lang, name, id),
    ensures
        built_doc(files, id) is Some,
        built_basename(files, id) is Some,
    decreases files.len(),
{
    if crate::index::indexable(files.last()) && files.last().id@ == id {
    } else {
        let fi = choose|fi: int|
            0 <= fi < files.len() && crate::index::lang_of_path(#[trigger] files[fi].path@)
                == Some(lang) && files[fi].id@ == id && crate::index::occ_due(
                files[fi].document,
                files[fi].document.occurrences@.len() as int,
                name,
            );
        assert(fi < files.len() - 1);
        assert(files.drop_last()[fi] == files[fi]);
        assert(names_due(files.drop_last(), lang, name, id));
        lemma_names_have_documents(files.drop_last(), lang, name, id);
    }
}

/// Depth bound, terminal half: at an exhausted depth budget the
/// resolver owes nothing, so no snippet is ever reached through more
/// than `max_depth` related hops from a seed identifier.
pub proof fn lemma_depth_exhausted_owes_nothing(
    index: Index,
    store: ContentStore,
    lang: SourceLanguage,
    rp: Seq<char>,
    name: Seq<char>,
    depth: int,
    max_depth: int,
    f: Seq<char>,
    sy: Seq<char>,
    c: Seq<char>,
)
    requires
        depth >= max_depth,
    ensures
        !in_resolution(index, store, lang, rp, name, depth, max_depth, f, sy, c),
{
}

/// Depth bound, monotone half: raising the depth limit only ever adds
/// snippets, so lowering `max_depth` from one query to the next can
/// only shrink the answer — every snippet of the shallower run is owed
/// by the deeper one.
pub proof fn lemma_depth_bound_monotone(
    index: Index,
    store: ContentStore,
    lang: SourceLanguage,
    rp: Seq<char>,
    name: Seq<char>,
    depth: int,
    max1: int,
    max2: int,
    f: Seq<char>,
    sy: Seq<char>,
    c: Seq<char>,
)
    requires
        max1 <= max2,
        in_resolution(index, store, lang, rp, name, depth, max1, f, sy, c),
    ensures
        in_resolution(index, store, lang, rp, name, depth, max2, f, sy, c),
    decreases max1 - depth, 1int,
{
    let id = choose|id: Seq<u8>|
        #[trigger] name_maps(index.lang_and_name_to_oids@, lang, name, id)
            && in_candidate_additions(index, store, lang, rp, id, name, depth, max1, f, sy, c);
    match (
        doc_lookup(index.oid_to_document_context@, id),
        crate::store::store_lookup(store.entries@, id),
        basename_lookup(index.oid_to_basename@, id),
    ) {
        (Some(dc), Some(src), Some(base)) => {
            let j = choose|j: int|
                0 <= j < dc.document.occurrences@.len() && in_occurrence_additions(
                    index,
                    store,
                    lang,
                    rp,
                    dc,
                    #[trigger] dc.document.occurrences@[j],
                    src,
                    base,
                    name,
                    depth,
                    max1,
                    f,
                    sy,
                    c,
                );
            let occ = dc.document.occurrences@[j];
            if !(f == base && sy == occ.symbol@ && c == content_of_occurrence(dc, occ, src)->Some_0) {
                assert(depth < max1);
                lemma_related_bound_monotone(
                    index,
                    store,
                    lang,
                    rp,
                    src,
                    occ.range,
                    depth + 1,
                    max1,
                    max2,
                    f,
                    sy,
                    c,
                );
            }
            assert(in_occurrence_additions(
                index,
                store,
                lang,
                rp,
                dc,
                occ,
                src,
                base,
                name,
                depth,
                max2,
                f,
                sy,
                c,
            ));
            assert(in_candidate_additions(index, store, lang, rp, id, name, depth, max2, f, sy, c));
        },
        _ => {
            assert(false);
        },
    }
}

/// The related-hop half of `lemma_depth_bound_monotone`.
pub proof fn lemma_related_bound_monotone(
    index: Index,
    store: ContentStore,
    lang: SourceLanguage,
    rp: Seq<char>,
    content: Seq<char>,
    decl: crate::text::Range,
    depth: int,
    max1: int,
    max2: int,
    f: Seq<char>,
    sy: Seq<char>,
    c: Seq<char>,
)
    requires
        max1 <= max2,
        in_related_additions(index, store, lang, rp, content, decl, depth, max1, f, sy, c),
    ensures
        in_related_additions(index, store, lang, rp, content, decl, depth, max2, f, sy, c),
    decreases max1 - depth, 2int,
{
    match crate::runner::ts_matches(rp, content) {
        Some(ms) => {
            let k = choose|k: int|
                0 <= k < crate::query::related_ids(ms, decl).len() && in_resolution(
                    index,
                    store,
                    lang,
                    rp,
                    #[trigger] crate::query::related_ids(ms, decl)[k],
                    depth,
                    max1,
                    f,
                    sy,
                    c,
                );
            lemma_depth_bound_monotone(
                index,
                store,
                lang,
                rp,
                crate::query::related_ids(ms, decl)[k],
                depth,
                max1,
                max2,
                f,
                sy,
                c,
            );
        },
        None => {
            assert(false);
        },
    }
}

/// Repeat-call stability: a resolver run over a set that already holds
/// everything the resolution owes — a second identical call, say —
/// leaves the set's membership exactly as it was.
pub proof fn lemma_resolution_idempotent(
    index: Index,
    store: ContentStore,
    lang: SourceLanguage,
    rp: Seq<char>,
    name: Seq<char>,
    depth: int,
    max_depth: int,
    items1: Seq<SymbolContextSnippet>,
    items2: Seq<SymbolContextSnippet>,
)
    requires
        forall|f: Seq<char>, sy: Seq<char>, c: Seq<char>|
            #[trigger] in_resolution(index, store, lang, rp, name, depth, max_depth, f, sy, c)
                ==> set_has(items1, f, sy, c),
        forall|f: Seq<char>, sy: Seq<char>, c: Seq<char>|
            #[trigger] set_has(items2, f, sy, c) == (set_has(items1, f, sy, c) || in_resolution(
                index,
                store,
                lang,
                rp,
                name,
                depth,
                max_depth,
                f,
                sy,
                c,
            )),
    ensures
        forall|f: Seq<char>, sy: Seq<char>, c: Seq<char>|
            #[trigger] set_has(items2, f, sy, c) == set_has(items1, f, sy, c),
{
}

/// Determinism: the resolver's result is a function of the index, the
/// store, the related pattern, the identifier and the depth budget —
/// two runs from equal starting sets hold exactly the same snippets.
pub proof fn lemma_resolution_deterministic(
    index: Index,
    store: ContentStore,
    lang: SourceLanguage,
    rp: Seq<char>,
    name: Seq<char>,
    depth: int,
    max_depth: int,
    start: Seq<SymbolContextSnippet>,
    run1: Seq<SymbolContextSnippet>,
    run2: Seq<SymbolContextSnippet>,
)
    requires
        forall|f: Seq<char>, sy: Seq<char>, c: Seq<char>|
            #[trigger] set_has(run1, f, sy, c) == (set_has(start, f, sy, c) || in_resolution(
                index,
                store,
                lang,
                rp,
                name,
                depth,
                max_depth,
                f,
                sy,
                c,
            )),
        forall|f: Seq<char>, sy: Seq<char>, c: Seq<char>|
            #[trigger] set_has(run2, f, sy, c) == (set_has(start, f, sy, c) || in_resolution(
                index,
                store,
                lang,
                rp,
                name,
                depth,
                max_depth,
                f,
                sy,
                c,
            )),
    ensures
        forall|f: Seq<char>, sy: Seq<char>, c: Seq<char>|
            #[trigger] set_has(run1, f, sy, c) == set_has(run2, f, sy, c),
{
}

/// Revision replacement: installing a second index for the same
/// location makes every later lookup of that location see the second
/// index whole; nothing of the first leaks through.
pub proof fn lemma_revision_replacement(
    entries: Seq<(String, Index)>,
    loc1: String,
    loc2: String,
    index1: Index,
    index2: Index,
)
    requires
        loc1@ == loc2@,
    ensures
        repo_lookup(entries.push((loc1, index1)).push((loc2, index2)), loc2@) == Some(index2),
{
    let after = entries.push((loc1, index1)).push((loc2, index2));
    assert(after.last() == (loc2, index2));
}

} // verus!
