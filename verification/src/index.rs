//! The symbol index and its construction.
//!
//! An `Index` is the per-revision aggregate: per-file documents, a
//! reverse lookup from (language, simple name) to the content ids of the
//! files whose symbols end in that name, and the file path of every
//! indexed blob for snippet attribution.  `build_index` populates all
//! three from the files of one revision; an index is never mutated
//! afterwards, a new revision gets a whole new one.  `RepoIndices` is
//! the revision-keyed table: one index per tracked repository location,
//! last write wins.

use vstd::prelude::*;

use crate::document::{build_document_context, sym_index_entries, Document, DocumentContext};
use crate::query::str_eq;
use crate::store::ContentId;
use crate::symbol::{simple_name_of, symbol_simple_name};

verus! {

/// The closed set of supported language grammars.
#[derive(Clone, Copy, Debug, PartialEq, Eq, Hash, Structural)]
pub enum SourceLanguage {
    Typescript,
}

/// One input of `build_index`: a blob's path, its content id, and the
/// symbolizer's document for it.
#[derive(Clone, Debug)]
pub struct SourceFile {
    pub path: String,
    pub id: ContentId,
    pub document: Document,
}

/// One row of the reverse lookup: under this language, this simple name
/// occurs in the file with this content id.
#[derive(Clone, Debug)]
pub struct NameRow {
    pub language: SourceLanguage,
    pub name: String,
    pub id: ContentId,
}

/// The per-revision symbol index.
#[derive(Debug)]
pub struct Index {
    pub oid_to_document_context: Vec<(ContentId, DocumentContext)>,
    pub lang_and_name_to_oids: Vec<NameRow>,
    pub oid_to_basename: Vec<(ContentId, String)>,
}

/// The language a file path maps to: files ending in `.ts` are
/// TypeScript, every other path is not indexable.
pub open spec fn lang_of_path(path: Seq<char>) -> Option<SourceLanguage> {
    if path.len() >= 3 && path.subrange(path.len() - 3, path.len() as int) == ".ts"@ {
        Some(SourceLanguage::Typescript)
    } else {
        None
    }
}

/// Whether a file takes part in the index at all.
pub open spec fn indexable(f: SourceFile) -> bool {
    lang_of_path(f.path@) is Some
}

/// Whether `dc` is the `DocumentContext` that indexing derives from
/// `document`.
pub open spec fn is_doc_context_for(dc: DocumentContext, document: Document) -> bool {
    dc.document == document && dc.symbol_to_symbol_information@ == sym_index_entries(
        document.symbols@,
    )
}

/// The document recorded under `id`: the last indexable input file with
/// that content id wins.
pub open spec fn built_doc(files: Seq<SourceFile>, id: Seq<u8>) -> Option<Document>
    decreases files.len(),
{
    if files.len() == 0 {
        None
    } else if indexable(files.last()) && files.last().id@ == id {
        Some(files.last().document)
    } else {
        built_doc(files.drop_last(), id)
    }
}

/// Whether a recorded document context agrees with the document the
/// input files owe for the same id.
pub open spec fn doc_entry_matches(
    dc_opt: Option<DocumentContext>,
    d_opt: Option<Document>,
) -> bool {
    match (dc_opt, d_opt) {
        (Some(dc), Some(d)) => is_doc_context_for(dc, d),
        (None, None) => true,
        _ => false,
    }
}

/// The path recorded under `id`: likewise, the last indexable input
/// file with that content id wins.
pub open spec fn built_basename(files: Seq<SourceFile>, id: Seq<u8>) -> Option<Seq<char>>
    decreases files.len(),
{
    if files.len() == 0 {
        None
    } else if indexable(files.last()) && files.last().id@ == id {
        Some(files.last().path@)
    } else {
        built_basename(files.drop_last(), id)
    }
}

/// Whether the reverse lookup holds a row for `(lang, name, id)`.
pub open spec fn name_maps(rows: Seq<NameRow>, lang: SourceLanguage, name: Seq<char>, id: Seq<u8>) -> bool {
    exists|k: int|
        0 <= k < rows.len() && #[trigger] rows[k].language == lang && rows[k].name@ == name
            && rows[k].id@ == id
}

/// Whether one of the first `m` occurrences of `doc` has a symbol whose
/// simple name is `name`.
pub open spec fn occ_due(doc: Document, m: int, name: Seq<char>) -> bool {
    exists|b: int|
        0 <= b < m && m <= doc.occurrences@.len() && simple_name_of(
            #[trigger] doc.occurrences@[b].symbol@,
        ) == Some(name)
}

/// Whether indexing `files` owes the reverse lookup a row for
/// `(lang, name, id)`: some indexable file of that language and id has
/// an occurrence whose symbol's simple name is `name`.
pub open spec fn names_due(
    files: Seq<SourceFile>,
    lang: SourceLanguage,
    name: Seq<char>,
    id: Seq<u8>,
) -> bool {
    exists|fi: int|
        0 <= fi < files.len() && lang_of_path(#[trigger] files[fi].path@) == Some(lang)
            && files[fi].id@ == id && occ_due(
            files[fi].document,
            files[fi].document.occurrences@.len() as int,
            name,
        )
}

/// The document context recorded under `id`: the last entry with that
/// id wins, as in a map insertion.
pub open spec fn doc_lookup(entries: Seq<(ContentId, DocumentContext)>, id: Seq<u8>) -> Option<
    DocumentContext,
>
    decreases entries.len(),
{
    if entries.len() == 0 {
        None
    } else if entries.last().0@ == id {
        Some(entries.last().1)
    } else {
        doc_lookup(entries.drop_last(), id)
    }
}

/// The path recorded under `id`.
pub open spec fn basename_lookup(entries: Seq<(ContentId, String)>, id: Seq<u8>) -> Option<
    Seq<char>,
>
    decreases entries.len(),
{
    if entries.len() == 0 {
        None
    } else if entries.last().0@ == id {
        Some(entries.last().1@)
    } else {
        basename_lookup(entries.drop_last(), id)
    }
}

/// Executable form of `lang_of_path`.
pub fn language_for_path(path: &str) -> (r: Option<SourceLanguage>)
    ensures
        r == lang_of_path(path@),
{
    let n = path.unicode_len();
    if n >= 3 {
        let suffix = path.substring_char(n - 3, n);
        if str_eq(suffix, ".ts") {
            Some(SourceLanguage::Typescript)
        } else {
            None
        }
    } else {
        None
    }
}

impl Index {
    /// An index with nothing in it.
    pub fn new() -> (index: Index)
        ensures
            index.oid_to_document_context@.len() == 0,
            index.lang_and_name_to_oids@.len() == 0,
            index.oid_to_basename@.len() == 0,
    {
        Index {
            oid_to_document_context: Vec::new(),
            lang_and_name_to_oids: Vec::new(),
            oid_to_basename: Vec::new(),
        }
    }

    /// The content ids the reverse lookup holds for `(lang, name)`:
    /// every row's id, and nothing else.
    pub fn candidates(&self, lang: SourceLanguage, name: &str) -> (r: Vec<ContentId>)
        ensures
            forall|ci: int|
                0 <= ci < r@.len() ==> name_maps(
                    self.lang_and_name_to_oids@,
                    lang,
                    name@,
                    #[trigger] r@[ci]@,
                ),
            forall|id: Seq<u8>|
                #[trigger] name_maps(self.lang_and_name_to_oids@, lang, name@, id) ==> exists|
                    ci: int,
                |
                    0 <= ci < r@.len() && #[trigger] r@[ci]@ == id,
    {
        let rows = &self.lang_and_name_to_oids;
        let n = rows.len();
        let mut r: Vec<ContentId> = Vec::new();
        let mut k: usize = 0;
        while k < n
            invariant
                0 <= k <= n,
                n == rows@.len(),
                rows == &self.lang_and_name_to_oids,
                forall|ci: int|
                    0 <= ci < r@.len() ==> name_maps(rows@, lang, name@, #[trigger] r@[ci]@),
                forall|j: int|
                    0 <= j < k && #[trigger] rows@[j].language == lang && rows@[j].name@ == name@
                        ==> exists|ci: int| 0 <= ci < r@.len() && #[trigger] r@[ci]@ == rows@[j].id@,
            decreases n - k,
        {
            let row = &rows[k];
            let lang_eq = match (row.language, lang) {
                (SourceLanguage::Typescript, SourceLanguage::Typescript) => true,
            };
            if lang_eq && str_eq(row.name.as_str(), name) {
                let ghost old_r = r@;
                r.push(row.id);
                proof {
                    assert(r@.drop_last() =~= old_r);
                    assert(r@.last() == rows@[k as int].id);
                    assert(rows@[k as int].language == lang && rows@[k as int].name@ == name@
                        && rows@[k as int].id@ == r@.last()@);
                    assert(name_maps(rows@, lang, name@, r@.last()@));
                    assert forall|ci: int|
                        0 <= ci < r@.len() implies name_maps(
                        rows@,
                        lang,
                        name@,
                        #[trigger] r@[ci]@,
                    ) by {
                        if ci < old_r.len() {
                            assert(r@[ci] == old_r[ci]);
                        } else {
                            assert(r@[ci] == r@.last());
                        }
                    }
                    assert forall|j: int|
                        0 <= j < k + 1 && #[trigger] rows@[j].language == lang && rows@[j].name@
                            == name@ implies exists|ci: int|
                        0 <= ci < r@.len() && #[trigger] r@[ci]@ == rows@[j].id@ by {
                        if j < k {
                            let ci = choose|ci: int|
                                0 <= ci < old_r.len() && #[trigger] old_r[ci]@ == rows@[j].id@;
                            assert(r@[ci] == old_r[ci]);
                            assert(r@[ci]@ == rows@[j].id@);
                        } else {
                            assert(r@[r@.len() - 1]@ == rows@[j].id@);
                        }
                    }
                }
            }
            k = k + 1;
        }
        proof {
            assert forall|id: Seq<u8>|
                #[trigger] name_maps(self.lang_and_name_to_oids@, lang, name@, id) implies exists|
                ci: int,
            |
                0 <= ci < r@.len() && #[trigger] r@[ci]@ == id by {
                let j = choose|j: int|
                    0 <= j < rows@.len() && #[trigger] rows@[j].language == lang && rows@[j].name@
                        == name@ && rows@[j].id@ == id;
                assert(exists|ci: int| 0 <= ci < r@.len() && #[trigger] r@[ci]@ == rows@[j].id@);
            }
        }
        r
    }

    /// The document recorded under `id`, per `doc_lookup`.
    pub fn document_for<'a>(&'a self, id: &ContentId) -> (r: Option<&'a DocumentContext>)
        ensures
            match r {
                Some(dc) => doc_lookup(self.oid_to_document_context@, id@) == Some(*dc),
                None => doc_lookup(self.oid_to_document_context@, id@) is None,
            },
    {
        let entries = &self.oid_to_document_context;
        let n = entries.len();
        proof {
            assert(entries@.take(n as int) =~= entries@);
        }
        let mut i: usize = n;
        while i > 0
            invariant
                0 <= i <= n,
                n == entries@.len(),
                entries == &self.oid_to_document_context,
                doc_lookup(entries@, id@) == doc_lookup(entries@.take(i as int), id@),
            decreases i,
        {
            i = i - 1;
            proof {
                assert(entries@.take(i + 1).drop_last() =~= entries@.take(i as int));
                assert(entries@.take(i + 1).last() == entries@[i as int]);
            }
            if entries[i].0.same(id) {
                return Some(&entries[i].1);
            }
        }
        proof {
            assert(entries@.take(0) =~= Seq::<(ContentId, DocumentContext)>::empty());
        }
        None
    }

    /// The file path recorded under `id`, per `basename_lookup`.
    pub fn basename_for<'a>(&'a self, id: &ContentId) -> (r: Option<&'a String>)
        ensures
            match r {
                Some(p) => basename_lookup(self.oid_to_basename@, id@) == Some(p@),
                None => basename_lookup(self.oid_to_basename@, id@) is None,
            },
    {
        let entries = &self.oid_to_basename;
        let n = entries.len();
        proof {
            assert(entries@.take(n as int) =~= entries@);
        }
        let mut i: usize = n;
        while i > 0
            invariant
                0 <= i <= n,
                n == entries@.len(),
                entries == &self.oid_to_basename,
                basename_lookup(entries@, id@) == basename_lookup(entries@.take(i as int), id@),
            decreases i,
        {
            i = i - 1;
            proof {
                assert(entries@.take(i + 1).drop_last() =~= entries@.take(i as int));
                assert(entries@.take(i + 1).last() == entries@[i as int]);
            }
            if entries[i].0.same(id) {
                return Some(&entries[i].1);
            }
        }
        proof {
            assert(entries@.take(0) =~= Seq::<(ContentId, String)>::empty());
        }
        None
    }
}

/// Builds the symbol index for one revision's files.
///
/// Files whose path maps to no language are skipped whole; occurrences
/// whose symbol string does not decompose are skipped one by one.  The
/// result records, for every indexable file, its derived document
/// context and its path under its content id (the last file with an id
/// wins, as in a map insertion), and a reverse-lookup row for exactly
/// the (language, simple name, id) triples some occurrence gives rise
/// to.
pub fn build_index(files: Vec<SourceFile>) -> (index: Index)
    ensures
        forall|id: Seq<u8>|
            doc_entry_matches(
                #[trigger] doc_lookup(index.oid_to_document_context@, id),
                built_doc(files@, id),
            ),
        forall|id: Seq<u8>|
            #[trigger] basename_lookup(index.oid_to_basename@, id) == built_basename(files@, id),
        forall|lang: SourceLanguage, name: Seq<char>, id: Seq<u8>|
            #[trigger] name_maps(index.lang_and_name_to_oids@, lang, name, id) == names_due(
                files@,
                lang,
                name,
                id,
            ),
{
    let ghost all = files@;
    let mut files = files;
    let mut index = Index::new();
    let nf = files.len();
    let mut fi: usize = 0;
    proof {
        assert(all.take(0) =~= Seq::<SourceFile>::empty());
        assert(files@ =~= all.skip(0));
    }
    while fi < nf
        invariant
            0 <= fi <= nf,
            nf == all.len(),
            files@ == all.skip(fi as int),
            forall|id: Seq<u8>|
                doc_entry_matches(
                    #[trigger] doc_lookup(index.oid_to_document_context@, id),
                    built_doc(all.take(fi as int), id),
                ),
            forall|id: Seq<u8>|
                #[trigger] basename_lookup(index.oid_to_basename@, id) == built_basename(
                    all.take(fi as int),
                    id,
                ),
            forall|lang: SourceLanguage, name: Seq<char>, id: Seq<u8>|
                #[trigger] name_maps(index.lang_and_name_to_oids@, lang, name, id) == names_due(
                    all.take(fi as int),
                    lang,
                    name,
                    id,
                ),
        decreases nf - fi,
    {
        let ghost pre = all.take(fi as int);
        let ghost post = all.take(fi as int + 1);
        proof {
            assert(post.drop_last() =~= pre);
            assert(post.last() == all[fi as int]);
            lemma_names_due_step(pre, post);
        }
        let file = files.remove(0);
        proof {
            assert(file == all[fi as int]);
            assert(files@ =~= all.skip(fi as int + 1));
        }
        match language_for_path(file.path.as_str()) {
            None => {
            },
            Some(lang) => {
                let ghost docs_snap = index.oid_to_document_context@;
                let ghost bases_snap = index.oid_to_basename@;
                proof {
                    assert(forall|id: Seq<u8>|
                        doc_entry_matches(
                            #[trigger] doc_lookup(docs_snap, id),
                            built_doc(pre, id),
                        ));
                    assert(forall|id: Seq<u8>|
                        #[trigger] basename_lookup(bases_snap, id) == built_basename(pre, id));
                }
                let no = file.document.occurrences.len();
                let mut oj: usize = 0;
                while oj < no
                    invariant
                        0 <= oj <= no,
                        0 <= fi < nf,
                        nf == all.len(),
                        file == all[fi as int],
                        no == all[fi as int].document.occurrences@.len(),
                        lang_of_path(all[fi as int].path@) == Some(lang),
                        index.oid_to_document_context@ == docs_snap,
                        index.oid_to_basename@ == bases_snap,
                        forall|l2: SourceLanguage, n2: Seq<char>, id2: Seq<u8>|
                            #[trigger] name_maps(index.lang_and_name_to_oids@, l2, n2, id2) == (
                            names_due(all.take(fi as int), l2, n2, id2) || (l2 == lang && id2
                                == all[fi as int].id@ && occ_due(
                                all[fi as int].document,
                                oj as int,
                                n2,
                            ))),
                    decreases no - oj,
                {
                    let ghost doc = all[fi as int].document;
                    let occ_symbol = &file.document.occurrences[oj].symbol;
                    match symbol_simple_name(occ_symbol.as_str()) {
                        Some(simple) => {
                            let ghost old_rows = index.lang_and_name_to_oids@;
                            let row = NameRow { language: lang, name: simple, id: file.id };
                            let ghost grow = row;
                            index.lang_and_name_to_oids.push(row);
                            proof {
                                let rows = index.lang_and_name_to_oids@;
                                assert(rows.drop_last() =~= old_rows);
                                assert(rows.last() == grow);
                                assert forall|l2: SourceLanguage, n2: Seq<char>, id2: Seq<u8>|
                                    #[trigger] name_maps(rows, l2, n2, id2) == (names_due(
                                        all.take(fi as int),
                                        l2,
                                        n2,
                                        id2,
                                    ) || (l2 == lang && id2 == all[fi as int].id@ && occ_due(
                                        doc,
                                        oj as int + 1,
                                        n2,
                                    ))) by {
                                    lemma_name_maps_push(old_rows, grow, l2, n2, id2);
                                    lemma_occ_due_step(doc, oj as int, n2);
                                    if l2 == lang && id2 == all[fi as int].id@ && n2
                                        == grow.name@ {
                                        assert(simple_name_of(doc.occurrences@[oj as int].symbol@)
                                            == Some(n2));
                                        assert(occ_due(doc, oj as int + 1, n2));
                                    }
                                }
                            }
                        },
                        None => {
                            proof {
                                assert forall|n2: Seq<char>|
                                    #[trigger] occ_due(doc, oj as int + 1, n2) == occ_due(
                                        doc,
                                        oj as int,
                                        n2,
                                    ) by {
                                    lemma_occ_due_step(doc, oj as int, n2);
                                }
                            }
                        },
                    }
                    oj = oj + 1;
                }
                let SourceFile { path, id, document } = file;
                let dc = build_document_context(document);
                let ghost gdc = dc;
                let ghost gpath = path@;
                let ghost old_docs = index.oid_to_document_context@;
                let ghost old_bases = index.oid_to_basename@;
                proof {
                    assert(old_docs == docs_snap);
                    assert(old_bases == bases_snap);
                    assert(is_doc_context_for(gdc, all[fi as int].document));
                }
                index.oid_to_document_context.push((id, dc));
                index.oid_to_basename.push((id, path));
                proof {
                    let docs_after = index.oid_to_document_context@;
                    let bases_after = index.oid_to_basename@;
                    assert(docs_after.drop_last() =~= old_docs);
                    assert(bases_after.drop_last() =~= old_bases);
                    assert(docs_after.last().0 == all[fi as int].id);
                    assert(docs_after.last().1 == gdc);
                    assert(bases_after.last().0 == all[fi as int].id);
                    assert(bases_after.last().1@ == all[fi as int].path@);
                    assert forall|idv: Seq<u8>|
                        doc_entry_matches(
                            #[trigger] doc_lookup(docs_after, idv),
                            built_doc(post, idv),
                        ) by {
                        if all[fi as int].id@ == idv {
                            assert(doc_lookup(docs_after, idv) == Some(gdc));
                            assert(built_doc(post, idv) == Some(all[fi as int].document));
                        } else {
                            assert(doc_lookup(docs_after, idv) == doc_lookup(old_docs, idv));
                            assert(built_doc(post, idv) == built_doc(pre, idv));
                        }
                    }
                    assert forall|idv: Seq<u8>|
                        #[trigger] basename_lookup(bases_after, idv) == built_basename(
                            post,
                            idv,
                        ) by {
                        if all[fi as int].id@ == idv {
                        } else {
                            assert(basename_lookup(bases_after, idv) == basename_lookup(
                                old_bases,
                                idv,
                            ));
                            assert(built_basename(post, idv) == built_basename(pre, idv));
                        }
                    }
                }
            },
        }
        fi = fi + 1;
    }
    proof {
        assert(all.take(nf as int) =~= all);
    }
    index
}

/// One more occurrence extends `occ_due` by at most that occurrence's
/// simple name.
proof fn lemma_occ_due_step(doc: Document, m: int, name: Seq<char>)
    requires
        0 <= m,
        m + 1 <= doc.occurrences@.len(),
    ensures
        occ_due(doc, m + 1, name) == (occ_due(doc, m, name) || simple_name_of(
            doc.occurrences@[m].symbol@,
        ) == Some(name)),
{
    if occ_due(doc, m + 1, name) {
        let b = choose|b: int|
            0 <= b < m + 1 && simple_name_of(#[trigger] doc.occurrences@[b].symbol@) == Some(name);
        if b < m {
            assert(occ_due(doc, m, name));
        }
    }
    if occ_due(doc, m, name) {
        let b = choose|b: int|
            0 <= b < m && simple_name_of(#[trigger] doc.occurrences@[b].symbol@) == Some(name);
        assert(occ_due(doc, m + 1, name));
    }
    if simple_name_of(doc.occurrences@[m].symbol@) == Some(name) {
        assert(occ_due(doc, m + 1, name));
    }
}

/// Extending the file prefix by one file extends `names_due` by exactly
/// that file's contribution.
proof fn lemma_names_due_step(pre: Seq<SourceFile>, post: Seq<SourceFile>)
    requires
        post.len() == pre.len() + 1,
        post.drop_last() == pre,
    ensures
        forall|lang: SourceLanguage, name: Seq<char>, id: Seq<u8>|
            #[trigger] names_due(post, lang, name, id) == (names_due(pre, lang, name, id) || (
            lang_of_path(post.last().path@) == Some(lang) && post.last().id@ == id && occ_due(
                post.last().document,
                post.last().document.occurrences@.len() as int,
                name,
            ))),
{
    assert forall|lang: SourceLanguage, name: Seq<char>, id: Seq<u8>|
        #[trigger] names_due(post, lang, name, id) == (names_due(pre, lang, name, id) || (
        lang_of_path(post.last().path@) == Some(lang) && post.last().id@ == id && occ_due(
            post.last().document,
            post.last().document.occurrences@.len() as int,
            name,
        ))) by {
        if names_due(post, lang, name, id) {
            let fi = choose|fi: int|
                0 <= fi < post.len() && lang_of_path(#[trigger] post[fi].path@) == Some(lang)
                    && post[fi].id@ == id && occ_due(
                    post[fi].document,
                    post[fi].document.occurrences@.len() as int,
                    name,
                );
            if fi < pre.len() {
                assert(pre[fi] == post[fi]);
                assert(names_due(pre, lang, name, id));
            } else {
                assert(post[fi] == post.last());
            }
        }
        if names_due(pre, lang, name, id) {
            let fi = choose|fi: int|
                0 <= fi < pre.len() && lang_of_path(#[trigger] pre[fi].path@) == Some(lang)
                    && pre[fi].id@ == id && occ_due(
                    pre[fi].document,
                    pre[fi].document.occurrences@.len() as int,
                    name,
                );
            assert(post[fi] == pre[fi]);
            assert(names_due(post, lang, name, id));
        }
        if lang_of_path(post.last().path@) == Some(lang) && post.last().id@ == id && occ_due(
            post.last().document,
            post.last().document.occurrences@.len() as int,
            name,
        ) {
            assert(lang_of_path(post[post.len() - 1].path@) == Some(lang));
            assert(names_due(post, lang, name, id));
        }
    }
}

/// Pushing one row extends the reverse lookup by exactly that row's
/// triple.
proof fn lemma_name_maps_push(
    rows: Seq<NameRow>,
    row: NameRow,
    lang: SourceLanguage,
    name: Seq<char>,
    id: Seq<u8>,
)
    ensures
        name_maps(rows.push(row), lang, name, id) == (name_maps(rows, lang, name, id) || (
        row.language == lang && row.name@ == name && row.id@ == id)),
{
    let post = rows.push(row);
    if name_maps(post, lang, name, id) {
        let k = choose|k: int|
            0 <= k < post.len() && #[trigger] post[k].language == lang && post[k].name@ == name
                && post[k].id@ == id;
        if k < rows.len() {
            assert(post[k] == rows[k]);
            assert(name_maps(rows, lang, name, id));
        } else {
            assert(post[k] == row);
        }
    }
    if name_maps(rows, lang, name, id) {
        let k = choose|k: int|
            0 <= k < rows.len() && #[trigger] rows[k].language == lang && rows[k].name@ == name
                && rows[k].id@ == id;
        assert(post[k] == rows[k]);
        assert(name_maps(post, lang, name, id));
    }
    if row.language == lang && row.name@ == name && row.id@ == id {
        assert(post[rows.len() as int] == row);
        assert(name_maps(post, lang, name, id));
    }
}

/// The revision-keyed table of indexes: one per tracked repository
/// location, replaced whole on a revision change.
pub struct RepoIndices {
    pub entries: Vec<(String, Index)>,
}

/// The index installed for `location`: the last installation wins.
pub open spec fn repo_lookup(entries: Seq<(String, Index)>, location: Seq<char>) -> Option<Index>
    decreases entries.len(),
{
    if entries.len() == 0 {
        None
    } else if entries.last().0@ == location {
        Some(entries.last().1)
    } else {
        repo_lookup(entries.drop_last(), location)
    }
}

impl RepoIndices {
    /// A table with no tracked location.
    pub fn new() -> (r: RepoIndices)
        ensures
            r.entries@.len() == 0,
    {
        RepoIndices { entries: Vec::new() }
    }

    /// Installs `index` as the active index of `location`, atomically
    /// replacing whatever was installed before; other locations keep
    /// their index.
    pub fn install(&mut self, location: String, index: Index)
        ensures
            repo_lookup(final(self).entries@, location@) == Some(index),
            forall|other: Seq<char>|
                other != location@ ==> #[trigger] repo_lookup(final(self).entries@, other)
                    == repo_lookup(old(self).entries@, other),
    {
        self.entries.push((location, index));
        proof {
            assert(self.entries@.drop_last() =~= old(self).entries@);
        }
    }

    /// The active index of `location`, if one was installed.
    pub fn get<'a>(&'a self, location: &str) -> (r: Option<&'a Index>)
        ensures
            match r {
                Some(index) => repo_lookup(self.entries@, location@) == Some(*index),
                None => repo_lookup(self.entries@, location@) is None,
            },
    {
        let entries = &self.entries;
        let n = entries.len();
        proof {
            assert(entries@.take(n as int) =~= entries@);
        }
        let mut i: usize = n;
        while i > 0
            invariant
                0 <= i <= n,
                n == entries@.len(),
                entries == &self.entries,
                repo_lookup(entries@, location@) == repo_lookup(entries@.take(i as int), location@),
            decreases i,
        {
            i = i - 1;
            proof {
                assert(entries@.take(i + 1).drop_last() =~= entries@.take(i as int));
                assert(entries@.take(i + 1).last() == entries@[i as int]);
            }
            if str_eq(entries[i].0.as_str(), location) {
                return Some(&entries[i].1);
            }
        }
        proof {
            assert(entries@.take(0) =~= Seq::<(String, Index)>::empty());
        }
        None
    }
}

} // verus!
