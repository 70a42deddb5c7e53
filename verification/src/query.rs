//! Filtering of grammar-query matches.
//!
//! A query run yields matches, each a list of named captures over the
//! parsed text.  Two fixed patterns drive the crate: the cursor-context
//! pattern, whose captures are named `identifier` and `range` ("this
//! identifier is in scope anywhere inside `range`"), and the
//! related-sibling pattern, whose captures are named `name` and `related`
//! ("at the declaration site whose name-range is X, these sibling
//! identifiers are related").  The functions here turn raw match lists
//! into identifier lists; they are total over arbitrary match data.

use vstd::prelude::*;

use crate::text::{range_contains_pos, Position, Range};

verus! {

/// One named capture of a query match: the capture's name in the query
/// pattern, the captured node's text, and the node's span.
#[derive(Clone, Debug, PartialEq, Eq)]
pub struct QueryCapture {
    pub name: String,
    pub text: String,
    pub range: Range,
}

/// One match of a query pattern: its captures, in match order.
#[derive(Clone, Debug, PartialEq, Eq)]
pub struct QueryMatchData {
    pub captures: Vec<QueryCapture>,
}

/// The last capture of `cs` whose name is `name`, if any.
pub open spec fn last_named(cs: Seq<QueryCapture>, name: Seq<char>) -> Option<QueryCapture>
    decreases cs.len(),
{
    if cs.len() == 0 {
        None
    } else if cs.last().name@ == name {
        Some(cs.last())
    } else {
        last_named(cs.drop_last(), name)
    }
}

/// The texts of all captures of `cs` whose name is `name`, in order.
pub open spec fn named_texts(cs: Seq<QueryCapture>, name: Seq<char>) -> Seq<Seq<char>>
    decreases cs.len(),
{
    if cs.len() == 0 {
        Seq::empty()
    } else {
        let rest = named_texts(cs.drop_last(), name);
        if cs.last().name@ == name {
            rest.push(cs.last().text@)
        } else {
            rest
        }
    }
}

/// Every `range` capture of the match contains the cursor.  A match with
/// no `range` capture holds everywhere.
pub open spec fn all_ranges_contain(cs: Seq<QueryCapture>, p: Position) -> bool {
    forall|i: int|
        0 <= i < cs.len() && cs[i].name@ == "range"@ ==> range_contains_pos(#[trigger] cs[i].range, p)
}

/// The seed identifier a cursor-context match contributes: the text of
/// its last `identifier` capture, unless some `range` capture excludes
/// the cursor or no `identifier` capture exists.
pub open spec fn seed_of_match(m: QueryMatchData, cursor: Position) -> Option<Seq<char>> {
    if all_ranges_contain(m.captures@, cursor) {
        match last_named(m.captures@, "identifier"@) {
            Some(c) => Some(c.text@),
            None => None,
        }
    } else {
        None
    }
}

/// All seed identifiers of a match list, in match order, duplicates kept:
/// deduplication happens at the snippet-set level, not here.
pub open spec fn seed_ids(ms: Seq<QueryMatchData>, cursor: Position) -> Seq<Seq<char>>
    decreases ms.len(),
{
    if ms.len() == 0 {
        Seq::empty()
    } else {
        let rest = seed_ids(ms.drop_last(), cursor);
        match seed_of_match(ms.last(), cursor) {
            Some(t) => rest.push(t),
            None => rest,
        }
    }
}

/// The related identifiers a related-sibling match contributes: the texts
/// of its `related` captures, but only when its last `name` capture spans
/// exactly the declaration range.
pub open spec fn related_of_match(m: QueryMatchData, decl: Range) -> Seq<Seq<char>> {
    match last_named(m.captures@, "name"@) {
        Some(c) => if c.range == decl {
            named_texts(m.captures@, "related"@)
        } else {
            Seq::empty()
        },
        None => Seq::empty(),
    }
}

/// All related identifiers of a match list, in match order.
pub open spec fn related_ids(ms: Seq<QueryMatchData>, decl: Range) -> Seq<Seq<char>>
    decreases ms.len(),
{
    if ms.len() == 0 {
        Seq::empty()
    } else {
        related_ids(ms.drop_last(), decl) + related_of_match(ms.last(), decl)
    }
}

/// Character-wise string comparison.
pub fn str_eq(a: &str, b: &str) -> (r: bool)
    ensures
        r == (a@ == b@),
{
    let n = a.unicode_len();
    let m = b.unicode_len();
    if n != m {
        return false;
    }
    let mut i: usize = 0;
    while i < n
        invariant
            0 <= i <= n,
            n == a@.len(),
            n == b@.len(),
            forall|k: int| 0 <= k < i ==> a@[k] == b@[k],
        decreases n - i,
    {
        if a.get_char(i) != b.get_char(i) {
            return false;
        }
        i = i + 1;
    }
    proof {
        assert(a@ =~= b@);
    }
    true
}

/// The seed identifier of one match, per `seed_of_match`.
fn seed_of_match_exec(m: &QueryMatchData, cursor: Position) -> (r: Option<String>)
    ensures
        match r {
            Some(s) => seed_of_match(*m, cursor) == Some(s@),
            None => seed_of_match(*m, cursor) is None,
        },
{
    let n = m.captures.len();
    let mut hit: bool = true;
    let mut ident: Option<String> = None;
    let mut j: usize = 0;
    while j < n
        invariant
            0 <= j <= n,
            n == m.captures@.len(),
            hit == all_ranges_contain(m.captures@.take(j as int), cursor),
            match (ident, last_named(m.captures@.take(j as int), "identifier"@)) {
                (Some(s), Some(c)) => s@ == c.text@,
                (None, None) => true,
                _ => false,
            },
        decreases n - j,
    {
        let c = &m.captures[j];
        let ghost pre = m.captures@.take(j as int);
        proof {
            assert(m.captures@.take(j + 1).drop_last() =~= pre);
            assert(m.captures@.take(j + 1).last() == m.captures@[j as int]);
        }
        if str_eq(c.name.as_str(), "identifier") {
            ident = Some(c.text.clone());
        }
        proof {
            let post = m.captures@.take(j + 1);
            if m.captures@[j as int].name@ == "identifier"@ {
                assert(last_named(post, "identifier"@) == Some(m.captures@[j as int]));
            } else {
                assert(last_named(post, "identifier"@) == last_named(pre, "identifier"@));
            }
        }
        if str_eq(c.name.as_str(), "range") {
            if !c.range.contains_position(&cursor) {
                hit = false;
            }
        }
        proof {
            let post = m.captures@.take(j + 1);
            assert forall|i: int|
                0 <= i < post.len() && post[i].name@ == "range"@ implies (range_contains_pos(
                post[i].range,
                cursor,
            ) == if i < j {
                range_contains_pos(pre[i].range, cursor)
            } else {
                range_contains_pos(m.captures@[j as int].range, cursor)
            }) by {
                if i < j {
                    assert(post[i] == pre[i]);
                }
            }
            if hit != all_ranges_contain(post, cursor) {
                if hit {
                    let i = choose|i: int|
                        0 <= i < post.len() && post[i].name@ == "range"@ && !range_contains_pos(
                            #[trigger] post[i].range,
                            cursor,
                        );
                    assert(i == j as int);
                } else {
                }
                assert(false);
            }
        }
        j = j + 1;
    }
    proof {
        assert(m.captures@.take(n as int) =~= m.captures@);
    }
    if hit {
        ident
    } else {
        None
    }
}

/// All seed identifiers of the given matches, per `seed_ids`.
pub fn seeds_from_matches(ms: &Vec<QueryMatchData>, cursor: Position) -> (ids: Vec<String>)
    ensures
        ids@.map_values(|s: String| s@) == seed_ids(ms@, cursor),
{
    let n = ms.len();
    let mut ids: Vec<String> = Vec::new();
    let mut i: usize = 0;
    while i < n
        invariant
            0 <= i <= n,
            n == ms@.len(),
            ids@.map_values(|s: String| s@) == seed_ids(ms@.take(i as int), cursor),
        decreases n - i,
    {
        let ghost pre = ms@.take(i as int);
        proof {
            assert(ms@.take(i + 1).drop_last() =~= pre);
            assert(ms@.take(i + 1).last() == ms@[i as int]);
        }
        match seed_of_match_exec(&ms[i], cursor) {
            Some(s) => {
                ids.push(s);
                proof {
                    assert(ids@.map_values(|s: String| s@) =~= seed_ids(
                        ms@.take(i + 1),
                        cursor,
                    ));
                }
            },
            None => {},
        }
        i = i + 1;
    }
    proof {
        assert(ms@.take(n as int) =~= ms@);
    }
    ids
}

/// The related identifiers of one match, per `related_of_match`.
fn related_of_match_exec(m: &QueryMatchData, decl: Range) -> (r: Vec<String>)
    ensures
        r@.map_values(|s: String| s@) == related_of_match(*m, decl),
{
    let n = m.captures.len();
    let mut name_cap: Option<Range> = None;
    let mut related: Vec<String> = Vec::new();
    let mut j: usize = 0;
    while j < n
        invariant
            0 <= j <= n,
            n == m.captures@.len(),
            match (name_cap, last_named(m.captures@.take(j as int), "name"@)) {
                (Some(rg), Some(c)) => rg == c.range,
                (None, None) => true,
                _ => false,
            },
            related@.map_values(|s: String| s@) == named_texts(
                m.captures@.take(j as int),
                "related"@,
            ),
        decreases n - j,
    {
        let c = &m.captures[j];
        let ghost pre = m.captures@.take(j as int);
        proof {
            assert(m.captures@.take(j + 1).drop_last() =~= pre);
            assert(m.captures@.take(j + 1).last() == m.captures@[j as int]);
        }
        if str_eq(c.name.as_str(), "name") {
            name_cap = Some(c.range);
        }
        proof {
            let post = m.captures@.take(j + 1);
            if m.captures@[j as int].name@ == "name"@ {
                assert(last_named(post, "name"@) == Some(m.captures@[j as int]));
            } else {
                assert(last_named(post, "name"@) == last_named(pre, "name"@));
            }
        }
        if str_eq(c.name.as_str(), "related") {
            related.push(c.text.clone());
            proof {
                assert(related@.map_values(|s: String| s@) =~= named_texts(
                    m.captures@.take(j + 1),
                    "related"@,
                ));
            }
        }
        j = j + 1;
    }
    proof {
        assert(m.captures@.take(n as int) =~= m.captures@);
    }
    match name_cap {
        Some(rg) => {
            if rg == decl {
                related
            } else {
                Vec::new()
            }
        },
        None => Vec::new(),
    }
}

/// All related identifiers of the given matches at the declaration range
/// `decl`, per `related_ids`.
pub fn related_from_matches(ms: &Vec<QueryMatchData>, decl: Range) -> (ids: Vec<String>)
    ensures
        ids@.map_values(|s: String| s@) == related_ids(ms@, decl),
{
    let n = ms.len();
    let mut ids: Vec<String> = Vec::new();
    let mut i: usize = 0;
    while i < n
        invariant
            0 <= i <= n,
            n == ms@.len(),
            ids@.map_values(|s: String| s@) == related_ids(ms@.take(i as int), decl),
        decreases n - i,
    {
        proof {
            assert(ms@.take(i + 1).drop_last() =~= ms@.take(i as int));
            assert(ms@.take(i + 1).last() == ms@[i as int]);
        }
        let mut more = related_of_match_exec(&ms[i], decl);
        let ghost old_ids = ids@;
        let ghost more_snap = more@;
        ids.append(&mut more);
        proof {
            assert(ids@.map_values(|s: String| s@) =~= old_ids.map_values(|s: String| s@)
                + more_snap.map_values(|s: String| s@));
        }
        i = i + 1;
    }
    proof {
        assert(ms@.take(n as int) =~= ms@);
    }
    ids
}

} // verus!
