//! The reader: folds located tokens into located datums.
//!
//! `spec_read_datum` says which datum the token stream holds at each
//! position, which tokens it spans, and which located error is reported
//! where none is legal.  Lists collect their elements and fold right into
//! pair cells when the closing parenthesis arrives.

use vstd::prelude::*;
use vstd::string::StringExecFns;
use crate::datum::Datum;
use crate::datum::DatumPair;
use crate::datum::LocatedDatum;
use crate::error::LexerError;
use crate::error::ProcessorError;
use crate::located::Located;
use crate::located::Location;
use crate::located::ToLocated;
use crate::token::Complex;
use crate::token::Primitive;
use crate::token::Real;
use crate::token::Token;

verus! {

/// One item of the token stream: a token or a lexical error, located.
pub type TokenItem = Located<Result<Token, LexerError>>;

/// Model of a datum: primitives and symbol text are carried as values, a
/// list is its located members with a flag that, when set, makes the last
/// member the dotted tail rather than an element.
pub enum DatumM {
    Prim(Primitive),
    Sym(Seq<char>),
    Bytes(Seq<u8>),
    Lst(Seq<(DatumM, Location)>, bool),
    Vect(Seq<(DatumM, Location)>),
}

/// The step a read takes at a position: a datum with its location and the
/// index just past its tokens, the end of input, or a located error.
pub enum RStep {
    RDatum(DatumM, Location, int),
    REnd,
    RFail(ProcessorError, Location),
}

/// The executable datum agrees with the model.
pub open spec fn datum_matches(m: DatumM, d: Datum) -> bool
    decreases m, 0int,
{
    match m {
        DatumM::Prim(p) => d == Datum::Primitive(p),
        DatumM::Sym(sv) => match d {
            Datum::Symbol(name) => name@ == sv,
            _ => false,
        },
        DatumM::Bytes(bs) => match d {
            Datum::ByteVector(v) => v@ == bs,
            _ => false,
        },
        DatumM::Lst(es, dotted) => match d {
            Datum::Pair(b) => pair_chain_matches(es, 0, dotted, *b),
            _ => false,
        },
        DatumM::Vect(es) => match d {
            Datum::Vector(v) => v@.len() == es.len() && (forall|k: int|
                0 <= k < es.len() ==> (#[trigger] v@[k]).location == es[k].1 && datum_matches(
                    es[k].0,
                    v@[k].data,
                )),
            _ => false,
        },
    }
}

/// Number of pair cells a member sequence yields: a dotted tail sits in the
/// last cell's cdr and adds none of its own.
pub open spec fn chain_cells(es: Seq<(DatumM, Location)>, dotted: bool) -> int {
    if dotted {
        es.len() - 1
    } else {
        es.len() as int
    }
}

/// The pair cell at index `k` of a right-nested chain agrees with the
/// members from `k` on: each car is its member, each inner cdr wrapper
/// carries the next member's location, and the chain closes on the dotted
/// tail, or on the empty list at the last member's location.
pub open spec fn pair_chain_matches(
    es: Seq<(DatumM, Location)>,
    k: int,
    dotted: bool,
    p: DatumPair,
) -> bool
    decreases es, es.len() - k,
{
    if k < 0 || k >= chain_cells(es, dotted) {
        p == DatumPair::Empty && !dotted && k >= es.len()
    } else {
        match p {
            DatumPair::Cons(car, cdr) => car.location == es[k].1 && datum_matches(
                es[k].0,
                car.data,
            ) && if k == chain_cells(es, dotted) - 1 {
                if dotted {
                    cdr.location == es[k + 1].1 && datum_matches(es[k + 1].0, cdr.data)
                } else {
                    cdr.location == es[k].1 && match cdr.data {
                        Datum::Pair(b) => *b == DatumPair::Empty,
                        _ => false,
                    }
                }
            } else {
                cdr.location == es[k + 1].1 && match cdr.data {
                    Datum::Pair(b) => pair_chain_matches(es, k + 1, dotted, *b),
                    _ => false,
                }
            },
            DatumPair::Empty => false,
        }
    }
}

/// A located value agrees with a model and its location.
pub open spec fn ld_matches(m: (DatumM, Location), ld: LocatedDatum) -> bool {
    ld.location == m.1 && datum_matches(m.0, ld.data)
}

/// The datum the token stream holds at position `i`.
pub open spec fn spec_read_datum(toks: Seq<TokenItem>, i: int) -> RStep
    decreases toks.len() - i, 2int,
{
    if i < 0 || i >= toks.len() {
        RStep::REnd
    } else {
        let loc = toks[i].location;
        match toks[i].data {
            Err(e) => RStep::RFail(ProcessorError::LexerError(e), loc),
            Ok(t) => match t {
                Token::Primitive(p) => RStep::RDatum(DatumM::Prim(p), loc, i + 1),
                Token::Identifier(name) => RStep::RDatum(DatumM::Sym(name@), loc, i + 1),
                Token::LeftParen => match spec_read_list(toks, i + 1, Seq::empty(), loc) {
                    LStep::LEmit(es, dotted, e) => RStep::RDatum(DatumM::Lst(es, dotted), loc, e),
                    LStep::LFail(pe, pl) => RStep::RFail(pe, pl),
                },
                Token::VecConsIntro => match spec_read_vector(toks, i + 1, Seq::empty(), loc) {
                    LStep::LEmit(es, _, e) => RStep::RDatum(DatumM::Vect(es), loc, e),
                    LStep::LFail(pe, pl) => RStep::RFail(pe, pl),
                },
                Token::ByteVecConsIntro => match spec_read_bytes(toks, i + 1, Seq::empty(), loc) {
                    BStep::BEmit(bs, e) => RStep::RDatum(DatumM::Bytes(bs), loc, e),
                    BStep::BFail(pe, pl) => RStep::RFail(pe, pl),
                },
                Token::Quote => spec_read_abbrev(toks, i, "quote"@),
                Token::Quasiquote => spec_read_abbrev(toks, i, "quasiquote"@),
                Token::Unquote => spec_read_abbrev(toks, i, "unquote"@),
                Token::UnquoteSplicing => spec_read_abbrev(toks, i, "unquote-splicing"@),
                Token::RightParen => RStep::RFail(ProcessorError::UnmatchedParentheses, loc),
                Token::Period => RStep::RFail(
                    ProcessorError::UnexpectedToken(Token::Period),
                    loc,
                ),
            },
        }
    }
}

/// An abbreviation at `i` desugars to a two-element proper list: the
/// canonical symbol at the abbreviation's location, then the datum after it.
pub open spec fn spec_read_abbrev(toks: Seq<TokenItem>, i: int, name: Seq<char>) -> RStep
    decreases toks.len() - i, 1int,
{
    if i < 0 || i >= toks.len() {
        RStep::REnd
    } else {
        let loc = toks[i].location;
        match spec_read_datum(toks, i + 1) {
            RStep::REnd => RStep::RFail(ProcessorError::UnexpectedEnd, loc),
            RStep::RFail(pe, pl) => RStep::RFail(pe, pl),
            RStep::RDatum(dm, dl, e) => RStep::RDatum(
                DatumM::Lst(seq![(DatumM::Sym(name), loc), (dm, dl)], false),
                loc,
                e,
            ),
        }
    }
}

/// The step a list or vector read takes: the members (for a list, with the
/// dotted flag) and the index just past the closing parenthesis, or a
/// located error.
pub enum LStep {
    LEmit(Seq<(DatumM, Location)>, bool, int),
    LFail(ProcessorError, Location),
}

/// The step a bytevector read takes.
pub enum BStep {
    BEmit(Seq<u8>, int),
    BFail(ProcessorError, Location),
}

/// The remainder of a list opened at `open_loc`, with `acc` already read:
/// datums extend it, a dot takes exactly one more datum and a closing
/// parenthesis, and running out of tokens is an error at the opening.
pub open spec fn spec_read_list(
    toks: Seq<TokenItem>,
    i: int,
    acc: Seq<(DatumM, Location)>,
    open_loc: Location,
) -> LStep
    decreases toks.len() - i, 3int,
{
    if i < 0 || i >= toks.len() {
        LStep::LFail(ProcessorError::UnexpectedEnd, open_loc)
    } else {
        let loc = toks[i].location;
        match toks[i].data {
            Err(e) => LStep::LFail(ProcessorError::LexerError(e), loc),
            Ok(t) => match t {
                Token::RightParen => LStep::LEmit(acc, false, i + 1),
                Token::Period => if acc.len() == 0 {
                    LStep::LFail(ProcessorError::UnexpectedToken(Token::Period), loc)
                } else {
                    match spec_read_datum(toks, i + 1) {
                        RStep::REnd => LStep::LFail(ProcessorError::UnexpectedEnd, open_loc),
                        RStep::RFail(pe, pl) => LStep::LFail(pe, pl),
                        RStep::RDatum(dm, dl, e) => if 0 <= e < toks.len() {
                            match toks[e].data {
                                Err(le) => LStep::LFail(
                                    ProcessorError::LexerError(le),
                                    toks[e].location,
                                ),
                                Ok(Token::RightParen) => LStep::LEmit(acc.push((dm, dl)), true, e + 1),
                                Ok(u) => LStep::LFail(
                                    ProcessorError::UnexpectedToken(u),
                                    toks[e].location,
                                ),
                            }
                        } else {
                            LStep::LFail(ProcessorError::UnexpectedEnd, open_loc)
                        },
                    }
                },
                _ => match spec_read_datum(toks, i) {
                    RStep::REnd => LStep::LFail(ProcessorError::UnexpectedEnd, open_loc),
                    RStep::RFail(pe, pl) => LStep::LFail(pe, pl),
                    RStep::RDatum(dm, dl, e) => if i < e <= toks.len() {
                        spec_read_list(toks, e, acc.push((dm, dl)), open_loc)
                    } else {
                        LStep::LFail(ProcessorError::UnexpectedEnd, open_loc)
                    },
                },
            },
        }
    }
}

/// The remainder of a vector opened at `open_loc`: datums until the closing
/// parenthesis.
pub open spec fn spec_read_vector(
    toks: Seq<TokenItem>,
    i: int,
    acc: Seq<(DatumM, Location)>,
    open_loc: Location,
) -> LStep
    decreases toks.len() - i, 3int,
{
    if i < 0 || i >= toks.len() {
        LStep::LFail(ProcessorError::UnexpectedEnd, open_loc)
    } else {
        match toks[i].data {
            Ok(Token::RightParen) => LStep::LEmit(acc, false, i + 1),
            _ => match spec_read_datum(toks, i) {
                RStep::REnd => LStep::LFail(ProcessorError::UnexpectedEnd, open_loc),
                RStep::RFail(pe, pl) => LStep::LFail(pe, pl),
                RStep::RDatum(dm, dl, e) => if i < e <= toks.len() {
                    spec_read_vector(toks, e, acc.push((dm, dl)), open_loc)
                } else {
                    LStep::LFail(ProcessorError::UnexpectedEnd, open_loc)
                },
            },
        }
    }
}

/// The remainder of a bytevector opened at `open_loc`: every element must
/// be an exact integer between 0 and 255.
pub open spec fn spec_read_bytes(
    toks: Seq<TokenItem>,
    i: int,
    acc: Seq<u8>,
    open_loc: Location,
) -> BStep
    decreases toks.len() - i,
{
    if i < 0 || i >= toks.len() {
        BStep::BFail(ProcessorError::UnexpectedEnd, open_loc)
    } else {
        let loc = toks[i].location;
        match toks[i].data {
            Err(e) => BStep::BFail(ProcessorError::LexerError(e), loc),
            Ok(t) => match t {
                Token::RightParen => BStep::BEmit(acc, i + 1),
                Token::Primitive(Primitive::Complex(Complex::Real(Real::Integer(n)))) => if 0 <= n
                    <= 255 {
                    spec_read_bytes(toks, i + 1, acc.push(n as u8), open_loc)
                } else {
                    BStep::BFail(ProcessorError::UnexpectedToken(t), loc)
                },
                _ => BStep::BFail(ProcessorError::UnexpectedToken(t), loc),
            },
        }
    }
}

/// A fresh copy of a lexical error.
fn clone_lexer_error(e: &LexerError) -> (r: LexerError)
    ensures
        r == *e,
{
    match e {
        LexerError::UnexpectedBegin => LexerError::UnexpectedBegin,
        LexerError::UnexpectedEnd => LexerError::UnexpectedEnd,
        LexerError::UnrecognizedToken => LexerError::UnrecognizedToken,
    }
}

/// A fresh copy of a real literal.
fn copy_real(r: &Real) -> (c: Real)
    ensures
        c == *r,
{
    match r {
        Real::PosInf => Real::PosInf,
        Real::NegInf => Real::NegInf,
        Real::PosNan => Real::PosNan,
        Real::NegNan => Real::NegNan,
        Real::Integer(i) => Real::Integer(*i),
        Real::Ration(a, b) => Real::Ration(*a, *b),
        Real::Float(f) => Real::Float(*f),
    }
}

/// A fresh copy of a numeric literal.
fn copy_complex(c: &Complex) -> (r: Complex)
    ensures
        r == *c,
{
    match c {
        Complex::Real(a) => Complex::Real(copy_real(a)),
        Complex::Complex(a, b) => Complex::Complex(copy_real(a), copy_real(b)),
        Complex::Imaginary(a) => Complex::Imaginary(copy_real(a)),
    }
}

/// A fresh copy of a literal value.
fn copy_primitive(p: &Primitive) -> (r: Primitive)
    ensures
        r == *p,
{
    match p {
        Primitive::Boolean(b) => Primitive::Boolean(*b),
        Primitive::Character(c) => Primitive::Character(*c),
        Primitive::String(s) => Primitive::String(s.clone()),
        Primitive::Complex(c) => Primitive::Complex(copy_complex(c)),
    }
}

/// A fresh copy of a token.
fn copy_token(t: &Token) -> (r: Token)
    ensures
        r == *t,
{
    match t {
        Token::Identifier(s) => Token::Identifier(s.clone()),
        Token::Primitive(p) => Token::Primitive(copy_primitive(p)),
        Token::LeftParen => Token::LeftParen,
        Token::RightParen => Token::RightParen,
        Token::VecConsIntro => Token::VecConsIntro,
        Token::ByteVecConsIntro => Token::ByteVecConsIntro,
        Token::Quote => Token::Quote,
        Token::Quasiquote => Token::Quasiquote,
        Token::Unquote => Token::Unquote,
        Token::UnquoteSplicing => Token::UnquoteSplicing,
        Token::Period => Token::Period,
    }
}

/// Folds collected elements and an optional dotted tail right into a chain
/// of pair cells, the shape `pair_chain_matches` describes.
fn assemble_list(
    elems: Vec<LocatedDatum>,
    tail: Option<LocatedDatum>,
    Ghost(esm): Ghost<Seq<(DatumM, Location)>>,
    Ghost(dotted): Ghost<bool>,
) -> (d: Datum)
    requires
        dotted == (tail is Some),
        esm.len() == elems@.len() + (if tail is Some { 1int } else { 0int }),
        forall|k: int| 0 <= k < elems@.len() ==> ld_matches(esm[k], #[trigger] elems@[k]),
        tail matches Some(t) ==> ld_matches(esm[esm.len() - 1], t) && elems@.len() > 0,
    ensures
        datum_matches(DatumM::Lst(esm, dotted), d),
{
    let mut elems = elems;
    if elems.len() == 0 {
        proof {
            assert(pair_chain_matches(esm, 0, false, DatumPair::Empty));
        }
        return Datum::Pair(Box::new(DatumPair::Empty));
    }
    let last_loc = elems[elems.len() - 1].location;
    let mut cdr_ld: LocatedDatum = match tail {
        Some(t) => t,
        None => LocatedDatum { data: Datum::Pair(Box::new(DatumPair::Empty)), location: last_loc },
    };
    loop
        invariant
            1 <= elems@.len() <= chain_cells(esm, dotted),
            dotted ==> esm.len() >= 2,
            !dotted ==> esm.len() >= 1,
            forall|k: int| 0 <= k < elems@.len() ==> ld_matches(esm[k], #[trigger] elems@[k]),
            elems@.len() == chain_cells(esm, dotted) ==> (if dotted {
                ld_matches(esm[esm.len() - 1], cdr_ld)
            } else {
                cdr_ld.location == esm[esm.len() - 1].1 && (match cdr_ld.data {
                    Datum::Pair(b) => *b == DatumPair::Empty,
                    _ => false,
                })
            }),
            elems@.len() < chain_cells(esm, dotted) ==> (cdr_ld.location == esm[elems@.len() as int].1
                && (match cdr_ld.data {
                Datum::Pair(b) => pair_chain_matches(esm, elems@.len() as int, dotted, *b),
                _ => false,
            })),
        decreases elems@.len(),
    {
        let el = match elems.pop() {
            Some(e) => e,
            None => {
                proof {
                    assert(false);
                }
                return Datum::Pair(Box::new(DatumPair::Empty));
            },
        };
        let loc = el.location;
        let cell = DatumPair::Cons(el, cdr_ld);
        proof {
            assert(ld_matches(esm[elems@.len() as int], el));
            assert(pair_chain_matches(esm, elems@.len() as int, dotted, cell));
        }
        if elems.len() == 0 {
            let d = Datum::Pair(Box::new(cell));
            proof {
                assert(datum_matches(DatumM::Lst(esm, dotted), d));
            }
            return d;
        }
        cdr_ld = LocatedDatum { data: Datum::Pair(Box::new(cell)), location: loc };
    }
}

/// The reader: the token stream with a committed position.
pub struct Processor {
    tokens: Vec<TokenItem>,
    pos: usize,
}

impl Processor {
    /// The whole token stream.
    pub closed spec fn toks(self) -> Seq<TokenItem> {
        self.tokens@
    }

    /// Index of the next unread token.
    pub closed spec fn spec_pos(self) -> int {
        self.pos as int
    }

    /// The position never passes the end of the stream.
    pub closed spec fn wf(self) -> bool {
        self.pos <= self.tokens@.len()
    }

    /// A reader over the given token stream, at its start.
    pub fn from(tokens: Vec<TokenItem>) -> (r: Processor)
        ensures
            r.wf(),
            r.spec_pos() == 0,
            r.toks() == tokens@,
    {
        Processor { tokens, pos: 0 }
    }

    /// Yields the next datum with its location, `None` at the end of the
    /// stream, or the located error where no datum is legal: exactly what
    /// `spec_read_datum` says of the committed position.
    pub fn get_next_datum(&mut self) -> (r: Result<
        Option<Located<Datum>>,
        Located<ProcessorError>,
    >)
        requires
            old(self).wf(),
        ensures
            final(self).wf(),
            final(self).toks() == old(self).toks(),
            final(self).spec_pos() >= old(self).spec_pos(),
            match spec_read_datum(old(self).toks(), old(self).spec_pos()) {
                RStep::REnd => r matches Ok(o) && o is None,
                RStep::RDatum(dm, dl, e) => r matches Ok(o) && o matches Some(ld) && ld.location
                    == dl && datum_matches(dm, ld.data) && final(self).spec_pos() == e,
                RStep::RFail(pe, pl) => r matches Err(le) && le.data == pe && le.location == pl,
            },
    {
        match self.read_datum_ld() {
            Ok(None) => Ok(None),
            Ok(Some(ld)) => Ok(Some(ld.data.with_location(ld.location))),
            Err(e) => Err(e),
        }
    }

    /// As `get_next_datum`, with the tree's own located wrapper.
    fn read_datum_ld(&mut self) -> (r: Result<Option<LocatedDatum>, Located<ProcessorError>>)
        requires
            old(self).wf(),
        ensures
            final(self).wf(),
            final(self).toks() == old(self).toks(),
            final(self).spec_pos() >= old(self).spec_pos(),
            match spec_read_datum(old(self).toks(), old(self).spec_pos()) {
                RStep::REnd => r matches Ok(o) && o is None && final(self).spec_pos() == old(
                    self,
                ).spec_pos(),
                RStep::RDatum(dm, dl, e) => r matches Ok(o) && o matches Some(ld) && ld_matches(
                    (dm, dl),
                    ld,
                ) && final(self).spec_pos() == e && e > old(self).spec_pos(),
                RStep::RFail(pe, pl) => r matches Err(le) && le.data == pe && le.location == pl,
            },
        decreases old(self).toks().len() - old(self).spec_pos(), 2int,
    {
        let ghost ts = self.toks();
        let ghost i = self.spec_pos();
        if self.pos >= self.tokens.len() {
            return Ok(None);
        }
        let loc = self.tokens[self.pos].location;
        let kind = match &self.tokens[self.pos].data {
            Err(e) => {
                let ec = clone_lexer_error(e);
                return Err(ProcessorError::LexerError(ec).with_location(loc));
            },
            Ok(t) => match t {
                Token::Primitive(p) => {
                    let pc = copy_primitive(p);
                    self.pos = self.pos + 1;
                    return Ok(
                        Some(LocatedDatum { data: Datum::Primitive(pc), location: loc }),
                    );
                },
                Token::Identifier(s) => {
                    let sc = s.clone();
                    self.pos = self.pos + 1;
                    return Ok(Some(LocatedDatum { data: Datum::Symbol(sc), location: loc }));
                },
                Token::LeftParen => 0u8,
                Token::VecConsIntro => 1u8,
                Token::ByteVecConsIntro => 2u8,
                Token::Quote => 3u8,
                Token::Quasiquote => 4u8,
                Token::Unquote => 5u8,
                Token::UnquoteSplicing => 6u8,
                Token::RightParen => {
                    return Err(ProcessorError::UnmatchedParentheses.with_location(loc));
                },
                Token::Period => {
                    return Err(
                        ProcessorError::UnexpectedToken(Token::Period).with_location(loc),
                    );
                },
            },
        };
        if kind == 0 {
            self.pos = self.pos + 1;
            let d = self.read_list(loc)?;
            Ok(Some(LocatedDatum { data: d, location: loc }))
        } else if kind == 1 {
            self.pos = self.pos + 1;
            let d = self.read_vector(loc)?;
            Ok(Some(LocatedDatum { data: d, location: loc }))
        } else if kind == 2 {
            self.pos = self.pos + 1;
            let d = self.read_bytes(loc)?;
            Ok(Some(LocatedDatum { data: d, location: loc }))
        } else {
            let name = if kind == 3 {
                let n = String::from_str("quote");
                proof {
                    reveal_strlit("quote");
                }
                n
            } else if kind == 4 {
                let n = String::from_str("quasiquote");
                proof {
                    reveal_strlit("quasiquote");
                }
                n
            } else if kind == 5 {
                let n = String::from_str("unquote");
                proof {
                    reveal_strlit("unquote");
                }
                n
            } else {
                let n = String::from_str("unquote-splicing");
                proof {
                    reveal_strlit("unquote-splicing");
                }
                n
            };
            self.pos = self.pos + 1;
            let inner = self.read_datum_ld()?;
            match inner {
                None => Err(ProcessorError::UnexpectedEnd.with_location(loc)),
                Some(ld) => {
                    let ghost dm_dl = match spec_read_datum(ts, i + 1) {
                        RStep::RDatum(dm, dl, _) => (dm, dl),
                        _ => ((DatumM::Bytes(Seq::empty()), loc)),
                    };
                    let dl_loc = ld.location;
                    let empty_cell = LocatedDatum {
                        data: Datum::Pair(Box::new(DatumPair::Empty)),
                        location: dl_loc,
                    };
                    let inner_chain = LocatedDatum {
                        data: Datum::Pair(Box::new(DatumPair::Cons(ld, empty_cell))),
                        location: dl_loc,
                    };
                    let sym = LocatedDatum { data: Datum::Symbol(name), location: loc };
                    let d = Datum::Pair(Box::new(DatumPair::Cons(sym, inner_chain)));
                    proof {
                        let es = seq![(DatumM::Sym(sym.data->Symbol_0@), loc), dm_dl];
                        assert(datum_matches(es[0].0, sym.data));
                        assert(datum_matches(es[1].0, ld.data));
                        assert(pair_chain_matches(es, 1, false, DatumPair::Cons(ld, empty_cell)));
                        assert(pair_chain_matches(es, 0, false, DatumPair::Cons(sym, inner_chain)));
                    }
                    Ok(Some(LocatedDatum { data: d, location: loc }))
                },
            }
        }
    }

    /// Reads the remainder of a list opened at `open_location`.
    fn read_list(&mut self, open_location: Location) -> (r: Result<
        Datum,
        Located<ProcessorError>,
    >)
        requires
            old(self).wf(),
        ensures
            final(self).wf(),
            final(self).toks() == old(self).toks(),
            final(self).spec_pos() >= old(self).spec_pos(),
            match spec_read_list(old(self).toks(), old(self).spec_pos(), Seq::empty(), open_location) {
                LStep::LEmit(es, dotted, e) => r matches Ok(d) && datum_matches(
                    DatumM::Lst(es, dotted),
                    d,
                ) && final(self).spec_pos() == e,
                LStep::LFail(pe, pl) => r matches Err(le) && le.data == pe && le.location == pl,
            },
        decreases old(self).toks().len() - old(self).spec_pos(), 3int,
    {
        let ghost ts = self.toks();
        let ghost start = self.spec_pos();
        let mut elems: Vec<LocatedDatum> = Vec::new();
        let ghost mut acc: Seq<(DatumM, Location)> = Seq::empty();
        loop
            invariant
                self.wf(),
                self.toks() == ts,
                ts == old(self).toks(),
                start == old(self).spec_pos(),
                0 <= start <= self.spec_pos() <= ts.len(),
                elems@.len() == acc.len(),
                forall|k: int| 0 <= k < acc.len() ==> ld_matches(acc[k], #[trigger] elems@[k]),
                spec_read_list(ts, start, Seq::empty(), open_location) == spec_read_list(
                    ts,
                    self.spec_pos(),
                    acc,
                    open_location,
                ),
            decreases ts.len() - self.spec_pos(),
        {
            let ghost cur = self.spec_pos();
            if self.pos >= self.tokens.len() {
                return Err(ProcessorError::UnexpectedEnd.with_location(open_location));
            }
            let loc = self.tokens[self.pos].location;
            let kind = match &self.tokens[self.pos].data {
                Err(e) => {
                    let ec = clone_lexer_error(e);
                    return Err(ProcessorError::LexerError(ec).with_location(loc));
                },
                Ok(Token::RightParen) => 0u8,
                Ok(Token::Period) => 1u8,
                Ok(_) => 2u8,
            };
            if kind == 0 {
                self.pos = self.pos + 1;
                let d = assemble_list(elems, None, Ghost(acc), Ghost(false));
                return Ok(d);
            } else if kind == 1 {
                if elems.len() == 0 {
                    return Err(
                        ProcessorError::UnexpectedToken(Token::Period).with_location(loc),
                    );
                }
                self.pos = self.pos + 1;
                let inner = self.read_datum_ld()?;
                match inner {
                    None => {
                        return Err(ProcessorError::UnexpectedEnd.with_location(open_location));
                    },
                    Some(ld) => {
                        let ghost tailm = match spec_read_datum(ts, cur + 1) {
                            RStep::RDatum(dm, dl, _) => (dm, dl),
                            _ => ((DatumM::Bytes(Seq::empty()), loc)),
                        };
                        if self.pos >= self.tokens.len() {
                            return Err(
                                ProcessorError::UnexpectedEnd.with_location(open_location),
                            );
                        }
                        let close_loc = self.tokens[self.pos].location;
                        match &self.tokens[self.pos].data {
                            Err(e) => {
                                let ec = clone_lexer_error(e);
                                return Err(
                                    ProcessorError::LexerError(ec).with_location(close_loc),
                                );
                            },
                            Ok(Token::RightParen) => {
                                self.pos = self.pos + 1;
                                let d = assemble_list(
                                    elems,
                                    Some(ld),
                                    Ghost(acc.push(tailm)),
                                    Ghost(true),
                                );
                                return Ok(d);
                            },
                            Ok(u) => {
                                let uc = copy_token(u);
                                return Err(
                                    ProcessorError::UnexpectedToken(uc).with_location(close_loc),
                                );
                            },
                        }
                    },
                }
            } else {
                let next = self.read_datum_ld()?;
                match next {
                    None => {
                        proof {
                            assert(false);
                        }
                        return Err(ProcessorError::UnexpectedEnd.with_location(open_location));
                    },
                    Some(ld) => {
                        proof {
                            acc = acc.push(
                                match spec_read_datum(ts, cur) {
                                    RStep::RDatum(dm, dl, _) => (dm, dl),
                                    _ => ((DatumM::Bytes(Seq::empty()), loc)),
                                },
                            );
                        }
                        elems.push(ld);
                    },
                }
            }
        }
    }

    /// Reads the remainder of a vector opened at `open_location`.
    fn read_vector(&mut self, open_location: Location) -> (r: Result<
        Datum,
        Located<ProcessorError>,
    >)
        requires
            old(self).wf(),
        ensures
            final(self).wf(),
            final(self).toks() == old(self).toks(),
            final(self).spec_pos() >= old(self).spec_pos(),
            match spec_read_vector(old(self).toks(), old(self).spec_pos(), Seq::empty(), open_location) {
                LStep::LEmit(es, _, e) => r matches Ok(d) && datum_matches(DatumM::Vect(es), d)
                    && final(self).spec_pos() == e,
                LStep::LFail(pe, pl) => r matches Err(le) && le.data == pe && le.location == pl,
            },
        decreases old(self).toks().len() - old(self).spec_pos(), 3int,
    {
        let ghost ts = self.toks();
        let ghost start = self.spec_pos();
        let mut elems: Vec<LocatedDatum> = Vec::new();
        let ghost mut acc: Seq<(DatumM, Location)> = Seq::empty();
        loop
            invariant
                self.wf(),
                self.toks() == ts,
                ts == old(self).toks(),
                start == old(self).spec_pos(),
                0 <= start <= self.spec_pos() <= ts.len(),
                elems@.len() == acc.len(),
                forall|k: int| 0 <= k < acc.len() ==> ld_matches(acc[k], #[trigger] elems@[k]),
                spec_read_vector(ts, start, Seq::empty(), open_location) == spec_read_vector(
                    ts,
                    self.spec_pos(),
                    acc,
                    open_location,
                ),
            decreases ts.len() - self.spec_pos(),
        {
            let ghost cur = self.spec_pos();
            if self.pos >= self.tokens.len() {
                return Err(ProcessorError::UnexpectedEnd.with_location(open_location));
            }
            let is_close = match &self.tokens[self.pos].data {
                Ok(Token::RightParen) => true,
                _ => false,
            };
            if is_close {
                self.pos = self.pos + 1;
                proof {
                    assert(forall|k: int|
                        0 <= k < acc.len() ==> (#[trigger] elems@[k]).location == acc[k].1
                            && datum_matches(acc[k].0, elems@[k].data));
                }
                return Ok(Datum::Vector(elems));
            }
            let loc = self.tokens[self.pos].location;
            let next = self.read_datum_ld()?;
            match next {
                None => {
                    proof {
                        assert(false);
                    }
                    return Err(ProcessorError::UnexpectedEnd.with_location(open_location));
                },
                Some(ld) => {
                    proof {
                        acc = acc.push(
                            match spec_read_datum(ts, cur) {
                                RStep::RDatum(dm, dl, _) => (dm, dl),
                                _ => ((DatumM::Bytes(Seq::empty()), loc)),
                            },
                        );
                    }
                    elems.push(ld);
                },
            }
        }
    }

    /// Reads the remainder of a bytevector opened at `open_location`.
    fn read_bytes(&mut self, open_location: Location) -> (r: Result<
        Datum,
        Located<ProcessorError>,
    >)
        requires
            old(self).wf(),
        ensures
            final(self).wf(),
            final(self).toks() == old(self).toks(),
            final(self).spec_pos() >= old(self).spec_pos(),
            match spec_read_bytes(old(self).toks(), old(self).spec_pos(), Seq::empty(), open_location) {
                BStep::BEmit(bs, e) => r matches Ok(d) && datum_matches(DatumM::Bytes(bs), d)
                    && final(self).spec_pos() == e,
                BStep::BFail(pe, pl) => r matches Err(le) && le.data == pe && le.location == pl,
            },
        decreases old(self).toks().len() - old(self).spec_pos(), 3int,
    {
        let ghost ts = self.toks();
        let ghost start = self.spec_pos();
        let mut bytes: Vec<u8> = Vec::new();
        loop
            invariant
                self.wf(),
                self.toks() == ts,
                ts == old(self).toks(),
                start == old(self).spec_pos(),
                0 <= start <= self.spec_pos() <= ts.len(),
                spec_read_bytes(ts, start, Seq::empty(), open_location) == spec_read_bytes(
                    ts,
                    self.spec_pos(),
                    bytes@,
                    open_location,
                ),
            decreases ts.len() - self.spec_pos(),
        {
            if self.pos >= self.tokens.len() {
                return Err(ProcessorError::UnexpectedEnd.with_location(open_location));
            }
            let loc = self.tokens[self.pos].location;
            let byte = match &self.tokens[self.pos].data {
                Err(e) => {
                    let ec = clone_lexer_error(e);
                    return Err(ProcessorError::LexerError(ec).with_location(loc));
                },
                Ok(t) => match t {
                    Token::RightParen => {
                        self.pos = self.pos + 1;
                        return Ok(Datum::ByteVector(bytes));
                    },
                    Token::Primitive(Primitive::Complex(Complex::Real(Real::Integer(n)))) => {
                        if 0 <= *n && *n <= 255 {
                            *n as u8
                        } else {
                            let tc = copy_token(t);
                            return Err(
                                ProcessorError::UnexpectedToken(tc).with_location(loc),
                            );
                        }
                    },
                    _ => {
                        let tc = copy_token(t);
                        return Err(ProcessorError::UnexpectedToken(tc).with_location(loc));
                    },
                },
            };
            bytes.push(byte);
            self.pos = self.pos + 1;
        }
    }
}

} // verus!
