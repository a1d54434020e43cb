//! Source positions and the wrapper that pairs a value with the position of
//! its first character.

use vstd::prelude::*;

verus! {

/// A source position: `row` advances on each newline, `col` on every other
/// character.
#[derive(Debug, Copy, Clone, PartialEq, Eq, Structural)]
pub struct Location {
    pub row: u32,
    pub col: u32,
}

/// A value together with the location of its first character.
#[derive(Debug, Copy, Clone, PartialEq)]
pub struct Located<T> {
    pub data: T,
    pub location: Location,
}

impl<T> Located<T> {
    /// Drops the location, keeping the wrapped value.
    pub fn extract(self) -> (r: T)
        ensures
            r == self.data,
    {
        self.data
    }
}

/// Attaches a location to a value.
pub trait ToLocated: Sized {
    fn with_location(self, location: Location) -> (r: Located<Self>)
        ensures
            r.data == self,
            r.location == location,
    {
        Located { data: self, location }
    }
}

/// The position reached after `ch`, starting from `loc`: a newline opens the
/// next row, any other character advances the column.  Counters saturate at
/// `u32::MAX` instead of wrapping, so positions never decrease.
pub open spec fn spec_move_location(loc: Location, ch: char) -> Location {
    if ch == '\n' {
        if loc.row == u32::MAX {
            loc
        } else {
            Location { row: (loc.row + 1) as u32, col: 0 }
        }
    } else {
        Location { row: loc.row, col: if loc.col == u32::MAX { loc.col } else { (loc.col + 1) as u32 } }
    }
}

/// Advances `location` over `ch`.
pub fn move_location(ch: char, location: &mut Location)
    ensures
        *final(location) == spec_move_location(*old(location), ch),
{
    if ch == '\n' {
        if location.row != u32::MAX {
            location.row = location.row + 1;
            location.col = 0;
        }
    } else {
        location.col = location.col.saturating_add(1);
    }
}

/// The position reached after reading all of `s`, starting at row 0, column 0.
pub open spec fn loc_after(s: Seq<char>) -> Location
    decreases s.len(),
{
    if s.len() == 0 {
        Location { row: 0, col: 0 }
    } else {
        spec_move_location(loc_after(s.drop_last()), s.last())
    }
}

/// Lexicographic order on positions: `a` is at or before `b`.
pub open spec fn loc_le(a: Location, b: Location) -> bool {
    a.row < b.row || (a.row == b.row && a.col <= b.col)
}

proof fn lemma_move_location_le(loc: Location, ch: char)
    ensures
        loc_le(loc, spec_move_location(loc, ch)),
{
}

/// Reading further input never moves the position backwards: the location
/// after any prefix of `s` is at or before the location after `s` itself.
pub proof fn lemma_loc_after_monotone(s: Seq<char>, i: int, j: int)
    requires
        0 <= i <= j <= s.len(),
    ensures
        loc_le(loc_after(s.take(i)), loc_after(s.take(j))),
    decreases j - i,
{
    if i < j {
        lemma_loc_after_monotone(s, i, j - 1);
        assert(s.take(j).drop_last() =~= s.take(j - 1));
        assert(loc_after(s.take(j)) == spec_move_location(loc_after(s.take(j - 1)), s.take(j).last()));
        lemma_move_location_le(loc_after(s.take(j - 1)), s.take(j).last());
    } else {
        assert(s.take(i) =~= s.take(j));
    }
}

} // verus!
