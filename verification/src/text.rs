//! Positions, ranges and snippet extraction.
//!
//! A `Position` is a zero-based (line, character) pair, where `character`
//! counts UTF-8 bytes within the line, as grammar query captures report
//! columns; lines are separated by `'\n'`.  `slice_range` turns a range
//! into the substring of a source text between the two positions,
//! resolving each byte column to its character boundary and failing on a
//! column that lands inside a multibyte character; it is the
//! snippet-extraction primitive used throughout the crate.

use vstd::prelude::*;

verus! {

/// A zero-based (line, character) position in a source text; the
/// character is a byte column within its line.
#[derive(Clone, Copy, Debug, PartialEq, Eq, Hash, Structural)]
pub struct Position {
    pub line: usize,
    pub character: usize,
}

/// A span of a source text: the positions of its first and one-past-last
/// characters.
#[derive(Clone, Copy, Debug, PartialEq, Eq, Hash, Structural)]
pub struct Range {
    pub start: Position,
    pub end: Position,
}

/// Lexicographic order on positions: line first, then character.
pub open spec fn pos_le(a: Position, b: Position) -> bool {
    a.line < b.line || (a.line == b.line && a.character <= b.character)
}

/// `a` contains `b` iff `a.start <= b.start` and `b.end <= a.end`.
pub open spec fn range_contains_range(a: Range, b: Range) -> bool {
    pos_le(a.start, b.start) && pos_le(b.end, a.end)
}

/// A range contains a position iff it contains the empty range at it.
pub open spec fn range_contains_pos(r: Range, p: Position) -> bool {
    pos_le(r.start, p) && pos_le(p, r.end)
}

/// A zero-length range: the sentinel for an occurrence without a
/// definitional body.
pub open spec fn range_is_empty(r: Range) -> bool {
    r.start == r.end
}

impl Position {
    /// Lexicographic comparison, executable form of `pos_le`.
    pub fn le(&self, other: &Position) -> (r: bool)
        ensures
            r == pos_le(*self, *other),
    {
        self.line < other.line || (self.line == other.line && self.character <= other.character)
    }
}

impl Range {
    /// Containment under the lexicographic order of `pos_le`.
    pub fn contains(&self, other: &Range) -> (r: bool)
        ensures
            r == range_contains_range(*self, *other),
    {
        self.start.le(&other.start) && other.end.le(&self.end)
    }

    /// Whether the range contains the given position.
    pub fn contains_position(&self, p: &Position) -> (r: bool)
        ensures
            r == range_contains_pos(*self, *p),
    {
        self.start.le(p) && p.le(&self.end)
    }

    /// Whether the range is zero-length.
    pub fn is_empty(&self) -> (r: bool)
        ensures
            r == range_is_empty(*self),
    {
        self.start == self.end
    }
}

/// Number of characters of the first line of `text`: the index of the
/// first `'\n'`, or the whole length when there is none.
pub open spec fn first_line_len(text: Seq<char>) -> nat
    decreases text.len(),
{
    if text.len() == 0 {
        0
    } else if text[0] == '\n' {
        0
    } else {
        1 + first_line_len(text.skip(1))
    }
}

/// How many UTF-8 bytes a character occupies.
pub open spec fn utf8_len(c: char) -> int {
    if (c as u32) < 0x80 {
        1
    } else if (c as u32) < 0x800 {
        2
    } else if (c as u32) < 0x10000 {
        3
    } else {
        4
    }
}

/// The character index at byte offset `byte_col` of a line, or `None`
/// when the offset exceeds the line's byte length or lands inside a
/// multibyte character.  An offset equal to the byte length is valid,
/// so end positions can be expressed.
pub open spec fn char_at_byte(line: Seq<char>, byte_col: int) -> Option<int>
    decreases line.len(),
{
    if byte_col == 0 {
        Some(0)
    } else if byte_col < 0 || line.len() == 0 {
        None
    } else if byte_col < utf8_len(line[0]) {
        None
    } else {
        match char_at_byte(line.skip(1), byte_col - utf8_len(line[0])) {
            Some(i) => Some(i + 1),
            None => None,
        }
    }
}

/// The character offset of the position `(line, character)` in `text`,
/// where `character` is a byte column within the line, or `None` when
/// `line` exceeds the number of lines, the column exceeds the line's
/// byte length, or the column lands inside a multibyte character.
pub open spec fn offset_of(text: Seq<char>, line: nat, character: nat) -> Option<int>
    decreases line,
{
    if line == 0 {
        char_at_byte(text.take(first_line_len(text) as int), character as int)
    } else {
        let ll = first_line_len(text);
        if ll < text.len() {
            match offset_of(text.skip(ll as int + 1), (line - 1) as nat, character) {
                Some(o) => Some(o + ll + 1),
                None => None,
            }
        } else {
            None
        }
    }
}

/// The substring of `text` between the offsets of `r.start` and `r.end`,
/// or `None` when either position is out of bounds, lands inside a
/// multibyte character, or the offsets are reversed.
pub open spec fn slice_spec(text: Seq<char>, r: Range) -> Option<Seq<char>> {
    match (
        offset_of(text, r.start.line as nat, r.start.character as nat),
        offset_of(text, r.end.line as nat, r.end.character as nat),
    ) {
        (Some(a), Some(b)) => if a <= b {
            Some(text.subrange(a, b))
        } else {
            None
        },
        _ => None,
    }
}

/// The first line ends at the first `'\n'` and is no longer than the text.
pub proof fn lemma_first_line_len(text: Seq<char>)
    ensures
        first_line_len(text) <= text.len(),
        forall|k: int| 0 <= k < first_line_len(text) ==> text[k] != '\n',
        first_line_len(text) < text.len() ==> text[first_line_len(text) as int] == '\n',
    decreases text.len(),
{
    if text.len() == 0 {
    } else if text[0] == '\n' {
    } else {
        lemma_first_line_len(text.skip(1));
        assert forall|k: int| 0 <= k < first_line_len(text) implies text[k] != '\n' by {
            if k > 0 {
                assert(text.skip(1)[k - 1] == text[k]);
            }
        }
        if first_line_len(text) < text.len() {
            assert(text.skip(1)[first_line_len(text) as int - 1]
                == text[first_line_len(text) as int]);
        }
    }
}

/// A resolved byte column never exceeds the line's character count.
pub proof fn lemma_char_at_byte_bound(line: Seq<char>, byte_col: int)
    ensures
        match char_at_byte(line, byte_col) {
            Some(i) => 0 <= i <= line.len(),
            None => true,
        },
    decreases line.len(),
{
    if byte_col == 0 || byte_col < 0 || line.len() == 0 {
    } else if byte_col < utf8_len(line[0]) {
    } else {
        lemma_char_at_byte_bound(line.skip(1), byte_col - utf8_len(line[0]));
    }
}

/// A valid offset never exceeds the text's length.
pub proof fn lemma_offset_bound(text: Seq<char>, line: nat, character: nat)
    ensures
        match offset_of(text, line, character) {
            Some(o) => 0 <= o <= text.len(),
            None => true,
        },
    decreases line,
{
    lemma_first_line_len(text);
    if line == 0 {
        lemma_char_at_byte_bound(text.take(first_line_len(text) as int), character as int);
    } else {
        let ll = first_line_len(text);
        if ll < text.len() {
            lemma_offset_bound(text.skip(ll as int + 1), (line - 1) as nat, character);
        }
    }
}

/// Executable form of `first_line_len`.
pub fn first_line_len_exec(text: &str) -> (r: usize)
    ensures
        r as nat == first_line_len(text@),
{
    let n = text.unicode_len();
    let mut i: usize = 0;
    while i < n && text.get_char(i) != '\n'
        invariant
            0 <= i <= n,
            n == text@.len(),
            forall|k: int| 0 <= k < i ==> text@[k] != '\n',
        decreases n - i,
    {
        i = i + 1;
    }
    proof {
        lemma_first_line_len(text@);
        let fll = first_line_len(text@) as int;
        if fll < i {
            assert(text@[fll] == '\n');
        }
        if i < fll {
            assert(text@[i as int] != '\n');
        }
    }
    i
}

/// Executable form of `utf8_len`.
pub fn utf8_len_exec(c: char) -> (r: usize)
    ensures
        r as int == utf8_len(c),
{
    let u = c as u32;
    if u < 0x80 {
        1
    } else if u < 0x800 {
        2
    } else if u < 0x10000 {
        3
    } else {
        4
    }
}

/// Executable form of `char_at_byte`.
pub fn char_at_byte_exec(line: &str, byte_col: usize) -> (r: Option<usize>)
    ensures
        match r {
            Some(i) => char_at_byte(line@, byte_col as int) == Some(i as int),
            None => char_at_byte(line@, byte_col as int) is None,
        },
    decreases line@.len(),
{
    if byte_col == 0 {
        return Some(0);
    }
    let n = line.unicode_len();
    if n == 0 {
        return None;
    }
    let c = line.get_char(0);
    let cl = utf8_len_exec(c);
    if byte_col < cl {
        return None;
    }
    let rest = line.substring_char(1, n);
    proof {
        assert(rest@ =~= line@.skip(1));
    }
    match char_at_byte_exec(rest, byte_col - cl) {
        Some(i) => {
            proof {
                lemma_char_at_byte_bound(rest@, byte_col - cl);
            }
            Some(i + 1)
        },
        None => None,
    }
}

/// Executable form of `offset_of`.
pub fn offset_for(text: &str, line: usize, character: usize) -> (r: Option<usize>)
    ensures
        match r {
            Some(o) => offset_of(text@, line as nat, character as nat) == Some(o as int),
            None => offset_of(text@, line as nat, character as nat) is None,
        },
    decreases line,
{
    let n = text.unicode_len();
    let ll = first_line_len_exec(text);
    if line == 0 {
        proof {
            lemma_first_line_len(text@);
        }
        let line_str = text.substring_char(0, ll);
        proof {
            assert(line_str@ =~= text@.take(ll as int));
        }
        char_at_byte_exec(line_str, character)
    } else {
        proof {
            lemma_first_line_len(text@);
        }
        if ll < n {
            let rest = text.substring_char(ll + 1, n);
            proof {
                assert(rest@ =~= text@.skip(ll as int + 1));
            }
            match offset_for(rest, line - 1, character) {
                Some(o) => {
                    proof {
                        lemma_offset_bound(rest@, (line - 1) as nat, character as nat);
                    }
                    Some(o + ll + 1)
                },
                None => None,
            }
        } else {
            None
        }
    }
}

/// Extracts the substring of `text` that `r` spans, per `slice_spec`.
pub fn slice_range(text: &str, r: &Range) -> (res: Option<String>)
    ensures
        match res {
            Some(s) => slice_spec(text@, *r) == Some(s@),
            None => slice_spec(text@, *r) is None,
        },
{
    let a = match offset_for(text, r.start.line, r.start.character) {
        Some(a) => a,
        None => {
            return None;
        },
    };
    let b = match offset_for(text, r.end.line, r.end.character) {
        Some(b) => b,
        None => {
            return None;
        },
    };
    if a <= b {
        proof {
            lemma_offset_bound(text@, r.end.line as nat, r.end.character as nat);
        }
        let s = text.substring_char(a, b);
        Some(s.to_owned())
    } else {
        None
    }
}

} // verus!
