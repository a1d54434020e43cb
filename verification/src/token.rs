//! Tokens and the syntactic numeric tower: a token captures a number exactly
//! as written, without arithmetic normalization.

use vstd::prelude::*;
use crate::located::ToLocated;

verus! {

/// One lexical token.
#[derive(Debug, Clone, PartialEq)]
pub enum Token {
    Identifier(String),
    Primitive(Primitive),
    LeftParen,
    RightParen,
    /// The literal `#(`.
    VecConsIntro,
    /// The literal `#u8(`.
    ByteVecConsIntro,
    Quote,
    Quasiquote,
    Unquote,
    UnquoteSplicing,
    Period,
}

impl ToLocated for Token {

}

/// A literal value.
#[derive(Debug, Clone, PartialEq)]
pub enum Primitive {
    Boolean(bool),
    Complex(Complex),
    Character(char),
    String(String),
}

/// A numeric literal in one of its three syntactic shapes.
#[derive(Debug, Clone, PartialEq)]
pub enum Complex {
    Real(Real),
    Complex(Real, Real),
    Imaginary(Real),
}

/// Sign bit of an IEEE 754 binary64 bit pattern.
pub const FLOAT_SIGN_BIT: u64 = 0x8000_0000_0000_0000;

/// A real literal.  `Float` holds the IEEE 754 binary64 bit pattern of the
/// value, so distinct lexemes that denote the same value compare equal.
#[derive(Debug, Clone, PartialEq)]
pub enum Real {
    PosInf,
    NegInf,
    PosNan,
    NegNan,
    Integer(i64),
    Ration(i64, u64),
    Float(u64),
}

impl Real {
    /// Negation, preserving the classification: infinities and NaNs swap
    /// sign, integers and rational numerators negate (wrapping on the one
    /// unrepresentable magnitude), floats flip their sign bit.
    pub open spec fn spec_reverse(self) -> Real {
        match self {
            Real::PosInf => Real::NegInf,
            Real::NegInf => Real::PosInf,
            Real::PosNan => Real::NegNan,
            Real::NegNan => Real::PosNan,
            Real::Integer(i) => Real::Integer(if i == i64::MIN { i64::MIN } else { (-i) as i64 }),
            Real::Ration(a, b) => Real::Ration(if a == i64::MIN { i64::MIN } else { (-a) as i64 }, b),
            Real::Float(f) => Real::Float(f ^ FLOAT_SIGN_BIT),
        }
    }

    /// Negates the literal.
    pub fn reverse(self) -> (r: Real)
        ensures
            r == self.spec_reverse(),
    {
        match self {
            Real::PosInf => Real::NegInf,
            Real::NegInf => Real::PosInf,
            Real::PosNan => Real::NegNan,
            Real::NegNan => Real::PosNan,
            Real::Integer(i) => Real::Integer(if i == i64::MIN { i } else { -i }),
            Real::Ration(a, b) => Real::Ration(if a == i64::MIN { a } else { -a }, b),
            Real::Float(f) => Real::Float(f ^ FLOAT_SIGN_BIT),
        }
    }
}

/// Negating twice restores every real literal, the NaN sentinels included:
/// each sign flip toggles `PosNan` and `NegNan`, so the pair of flips is the
/// identity.
pub proof fn lemma_reverse_involutive(r: Real)
    ensures
        r.spec_reverse().spec_reverse() == r,
{
    match r {
        Real::Float(f) => {
            assert((f ^ FLOAT_SIGN_BIT) ^ FLOAT_SIGN_BIT == f) by (bit_vector);
        },
        _ => {},
    }
}

} // verus!
