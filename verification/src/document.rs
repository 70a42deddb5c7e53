//! Per-file parse results.
//!
//! A `Document` is the symbolizer's output for one file: its symbols
//! with their optional metadata, and every occurrence of a symbol in the
//! file.  A `DocumentContext` pairs a document with a derived lookup
//! from symbol string to the position of its metadata in the symbol
//! list.

use vstd::prelude::*;

use crate::query::str_eq;
use crate::text::Range;

verus! {

/// Per-symbol metadata: the symbol string and, when the symbolizer
/// recorded one, a precomputed signature text that is preferred over
/// re-slicing the source.
#[derive(Clone, Debug, PartialEq, Eq)]
pub struct SymbolInformation {
    pub symbol: String,
    pub signature: Option<String>,
}

/// One reference site of a symbol inside a file: the reference token's
/// span, the span of the syntactic construct that defines or contains
/// the reference, and the symbol string.  A zero-length enclosing range
/// marks an occurrence without a definitional body, such as a bare
/// reference or an import.
#[derive(Clone, Debug, PartialEq, Eq)]
pub struct Occurrence {
    pub range: Range,
    pub enclosing_range: Range,
    pub symbol: String,
}

/// One file's parse result, read-only once produced.
#[derive(Clone, Debug, PartialEq, Eq)]
pub struct Document {
    pub symbols: Vec<SymbolInformation>,
    pub occurrences: Vec<Occurrence>,
}

/// A document plus the derived mapping from symbol string to the
/// position of its `SymbolInformation` in the document's symbol list.
#[derive(Clone, Debug, PartialEq, Eq)]
pub struct DocumentContext {
    pub document: Document,
    pub symbol_to_symbol_information: Vec<(String, usize)>,
}

/// The derived mapping's entries: each symbol of the list paired with
/// its index, in order, so that a lookup from the end finds the last
/// entry for a symbol that appears twice.
pub open spec fn sym_index_entries(symbols: Seq<SymbolInformation>) -> Seq<(String, usize)> {
    Seq::new(symbols.len(), |i: int| (symbols[i].symbol, i as usize))
}

/// The index recorded for `sym` in the derived mapping: the last entry
/// wins, as an insertion into a map would make it.
pub open spec fn sym_index_lookup(entries: Seq<(String, usize)>, sym: Seq<char>) -> Option<usize>
    decreases entries.len(),
{
    if entries.len() == 0 {
        None
    } else if entries.last().0@ == sym {
        Some(entries.last().1)
    } else {
        sym_index_lookup(entries.drop_last(), sym)
    }
}

/// The signature text the document records for `sym`: the signature of
/// the symbol's metadata entry, or `None` when the symbol has no entry,
/// the entry's index is out of bounds, or the entry carries no
/// signature.
pub open spec fn signature_lookup(dc: DocumentContext, sym: Seq<char>) -> Option<Seq<char>> {
    match sym_index_lookup(dc.symbol_to_symbol_information@, sym) {
        Some(i) => if i < dc.document.symbols.len() {
            match dc.document.symbols[i as int].signature {
                Some(sig) => Some(sig@),
                None => None,
            }
        } else {
            None
        },
        None => None,
    }
}

/// Builds the derived symbol-to-position mapping for `document`.
pub fn build_document_context(document: Document) -> (dc: DocumentContext)
    ensures
        dc.document == document,
        dc.symbol_to_symbol_information@ == sym_index_entries(document.symbols@),
{
    let n = document.symbols.len();
    let mut entries: Vec<(String, usize)> = Vec::new();
    let mut i: usize = 0;
    while i < n
        invariant
            0 <= i <= n,
            n == document.symbols@.len(),
            entries@ =~= sym_index_entries(document.symbols@).take(i as int),
        decreases n - i,
    {
        entries.push((document.symbols[i].symbol.clone(), i));
        proof {
            assert(entries@ =~= sym_index_entries(document.symbols@).take(i + 1));
        }
        i = i + 1;
    }
    proof {
        assert(sym_index_entries(document.symbols@).take(n as int) =~= sym_index_entries(
            document.symbols@,
        ));
    }
    DocumentContext { document, symbol_to_symbol_information: entries }
}

/// The signature text recorded for `symbol`, per `signature_lookup`.
pub fn signature_for<'a>(dc: &'a DocumentContext, symbol: &str) -> (r: Option<&'a String>)
    ensures
        match r {
            Some(s) => signature_lookup(*dc, symbol@) == Some(s@),
            None => signature_lookup(*dc, symbol@) is None,
        },
{
    let entries = &dc.symbol_to_symbol_information;
    let n = entries.len();
    proof {
        assert(entries@.take(n as int) =~= entries@);
    }
    let mut i: usize = n;
    while i > 0
        invariant
            0 <= i <= n,
            n == entries@.len(),
            entries == &dc.symbol_to_symbol_information,
            sym_index_lookup(entries@, symbol@) == sym_index_lookup(
                entries@.take(i as int),
                symbol@,
            ),
        decreases i,
    {
        i = i - 1;
        proof {
            assert(entries@.take(i + 1).drop_last() =~= entries@.take(i as int));
            assert(entries@.take(i + 1).last() == entries@[i as int]);
        }
        if str_eq(entries[i].0.as_str(), symbol) {
            let idx = entries[i].1;
            if idx < dc.document.symbols.len() {
                return match &dc.document.symbols[idx].signature {
                    Some(sig) => Some(sig),
                    None => None,
                };
            } else {
                return None;
            }
        }
    }
    proof {
        assert(entries@.take(0) =~= Seq::<(String, usize)>::empty());
    }
    None
}

} // verus!
