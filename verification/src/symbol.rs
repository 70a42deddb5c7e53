//! Symbol strings and their simple names.
//!
//! A symbol is a structured name with an ordered list of descriptor
//! components, carried through this crate as an opaque string.  Only the
//! last component — the simple name — is used for lookup: matching is by
//! simple name alone, a documented precision trade-off, not full-symbol
//! equality.

use vstd::prelude::*;

use crate::query::str_eq;

verus! {

/// The simple name of a symbol string: the name of the last descriptor
/// of its decomposition, or `None` when the string is malformed or has
/// no descriptor.  The decomposition is a function of the string alone.
pub uninterp spec fn simple_name_of(sym: Seq<char>) -> Option<Seq<char>>;

/// Relies on scip's `parse_symbol`: decomposes a symbol string into its
/// descriptors by the scip symbol grammar, depending on the string
/// alone.  The last descriptor's name is handed back; a parse error or
/// an empty descriptor list gives `None`.
#[verifier::external_body]
pub(crate) fn symbol_simple_name(sym: &str) -> (r: Option<String>)
    ensures
        match r {
            Some(n) => simple_name_of(sym@) == Some(n@),
            None => simple_name_of(sym@) is None,
        },
{
    match scip::symbol::parse_symbol(sym) {
        Ok(parsed) => parsed.descriptors.last().map(|d| d.name.clone()),
        Err(_) => None,
    }
}

/// Whether the symbol string's simple name is exactly `name`.  This is
/// the matching rule of the whole crate: any symbol anywhere whose
/// decomposition ends in `name` participates in a lookup for `name`.
pub fn symbol_has_simple_name(symbol: &str, name: &str) -> (r: bool)
    ensures
        r == (simple_name_of(symbol@) == Some(name@)),
{
    match symbol_simple_name(symbol) {
        Some(n) => str_eq(n.as_str(), name),
        None => false,
    }
}

} // verus!
