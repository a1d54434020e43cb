//! Datums: the values the reader produces from a token stream.

use vstd::prelude::*;
use crate::located::Location;
use crate::located::ToLocated;
use crate::token::Primitive;

verus! {

/// A datum together with the location of its first character.  A concrete
/// wrapper, so that the datum tree can recurse through it.
#[derive(Debug, PartialEq)]
pub struct LocatedDatum {
    pub data: Datum,
    pub location: Location,
}

impl LocatedDatum {
    /// Drops the location, keeping the datum.
    pub fn extract(self) -> (r: Datum)
        ensures
            r == self.data,
    {
        self.data
    }
}

/// A pair cell whose fields are located datums.  `Empty` is the empty list;
/// a proper list is a chain of `Cons` cells whose last cdr wraps `Empty`.
#[derive(Debug, PartialEq)]
pub enum DatumPair {
    Cons(LocatedDatum, LocatedDatum),
    Empty,
}

/// A read-level Scheme value.
#[derive(Debug, PartialEq)]
pub enum Datum {
    Primitive(Primitive),
    Symbol(String),
    ByteVector(Vec<u8>),
    Pair(Box<DatumPair>),
    Vector(Vec<LocatedDatum>),
}

impl ToLocated for Datum {

}

impl Default for DatumPair {
    fn default() -> (r: Self)
        ensures
            r == DatumPair::Empty,
    {
        DatumPair::Empty
    }
}

} // verus!
