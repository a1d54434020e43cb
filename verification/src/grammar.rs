//! The lexical grammar, stated over the input character sequence.
//!
//! `spec_next_token` says, for every position, which token the input holds
//! there, which characters it spans, and which error is reported when the
//! characters form no token.  Token values are stated by a model in which a
//! float literal is its lexeme; `token_matches` relates the model to the
//! executable token, pinning every part of it except the bit pattern a float
//! lexeme denotes.

use vstd::prelude::*;
use crate::error::LexerError;
use crate::lexer::Radix;
use crate::lexer::radix_val;
use crate::lexer::spec_dec_digit;
use crate::lexer::spec_delimiter;
use crate::lexer::spec_digit_val;
use crate::lexer::spec_identifier_initial;
use crate::lexer::spec_radix_digit;
use crate::lexer::spec_sign_subsequent;
use crate::lexer::spec_subsequent;
use crate::lexer::spec_whitespace;
use crate::token::Complex;
use crate::token::Primitive;
use crate::token::Real;
use crate::token::Token;

verus! {

/// Model of a real literal: exact values for the integer forms, the lexeme
/// for a float.
pub enum RealM {
    PosInf,
    NegInf,
    PosNan,
    NegNan,
    Int(int),
    Rat(int, int),
    Flt(Seq<char>),
}

/// Model of a numeric literal.
pub enum ComplexM {
    Single(RealM),
    Rect(RealM, RealM),
    Imag(RealM),
}

/// Model of a literal value.
pub enum PrimM {
    Bool(bool),
    Chr(char),
    Str(Seq<char>),
    Num(ComplexM),
}

/// Model of a token.
pub enum TokenM {
    Ident(Seq<char>),
    Prim(PrimM),
    LParen,
    RParen,
    VecIntro,
    ByteVecIntro,
    QuoteM,
    QuasiquoteM,
    UnquoteM,
    UnquoteSplicingM,
    PeriodM,
}

/// One step of a recognizer: a value with the position just past its lexeme,
/// or an error with the position where recognition failed.
pub enum Step<T> {
    Emit(T, int),
    Fail(LexerError, int),
}

/// The token the input holds at a position, after the trivia before it.
pub enum NextM {
    /// Only trivia remains.
    EndM,
    /// A token, the index of its first character, and the index just past it.
    TokM(TokenM, int, int),
    /// A lexical error and the position where recognition failed.
    FailM(LexerError, int),
}

/// Negation on the model: infinities and NaNs swap sign, integer values and
/// rational numerators negate, a float keeps its lexeme.
pub open spec fn real_m_reverse(m: RealM) -> RealM {
    match m {
        RealM::PosInf => RealM::NegInf,
        RealM::NegInf => RealM::PosInf,
        RealM::PosNan => RealM::NegNan,
        RealM::NegNan => RealM::PosNan,
        RealM::Int(i) => RealM::Int(-i),
        RealM::Rat(n, d) => RealM::Rat(-n, d),
        RealM::Flt(lex) => RealM::Flt(lex),
    }
}

/// The executable real agrees with the model; a float lexeme pins only the
/// variant, not the bit pattern it denotes.
pub open spec fn real_matches(m: RealM, r: Real) -> bool {
    match m {
        RealM::PosInf => r == Real::PosInf,
        RealM::NegInf => r == Real::NegInf,
        RealM::PosNan => r == Real::PosNan,
        RealM::NegNan => r == Real::NegNan,
        RealM::Int(i) => match r {
            Real::Integer(v) => v == i,
            _ => false,
        },
        RealM::Rat(n, d) => match r {
            Real::Ration(a, b) => a == n && b == d,
            _ => false,
        },
        RealM::Flt(_) => match r {
            Real::Float(_) => true,
            _ => false,
        },
    }
}

/// The executable numeric literal agrees with the model.
pub open spec fn complex_matches(m: ComplexM, c: Complex) -> bool {
    match m {
        ComplexM::Single(rm) => match c {
            Complex::Real(r) => real_matches(rm, r),
            _ => false,
        },
        ComplexM::Rect(rm, im) => match c {
            Complex::Complex(r, i) => real_matches(rm, r) && real_matches(im, i),
            _ => false,
        },
        ComplexM::Imag(im) => match c {
            Complex::Imaginary(i) => real_matches(im, i),
            _ => false,
        },
    }
}

/// The executable literal agrees with the model.
pub open spec fn prim_matches(m: PrimM, p: Primitive) -> bool {
    match m {
        PrimM::Bool(b) => p == Primitive::Boolean(b),
        PrimM::Chr(c) => p == Primitive::Character(c),
        PrimM::Str(s) => match p {
            Primitive::String(t) => t@ == s,
            _ => false,
        },
        PrimM::Num(cm) => match p {
            Primitive::Complex(c) => complex_matches(cm, c),
            _ => false,
        },
    }
}

/// The executable token agrees with the model.
pub open spec fn token_matches(m: TokenM, t: Token) -> bool {
    match m {
        TokenM::Ident(s) => match t {
            Token::Identifier(name) => name@ == s,
            _ => false,
        },
        TokenM::Prim(pm) => match t {
            Token::Primitive(p) => prim_matches(pm, p),
            _ => false,
        },
        TokenM::LParen => t == Token::LeftParen,
        TokenM::RParen => t == Token::RightParen,
        TokenM::VecIntro => t == Token::VecConsIntro,
        TokenM::ByteVecIntro => t == Token::ByteVecConsIntro,
        TokenM::QuoteM => t == Token::Quote,
        TokenM::QuasiquoteM => t == Token::Quasiquote,
        TokenM::UnquoteM => t == Token::Unquote,
        TokenM::UnquoteSplicingM => t == Token::UnquoteSplicing,
        TokenM::PeriodM => t == Token::Period,
    }
}

/// Index just past a line comment that starts before `i`: everything up to
/// and including the first line break is part of the comment.
pub open spec fn line_comment_end(s: Seq<char>, i: int) -> int
    decreases s.len() - i,
{
    if i < 0 || i >= s.len() {
        s.len() as int
    } else if s[i] == '\n' || s[i] == '\r' {
        i + 1
    } else {
        line_comment_end(s, i + 1)
    }
}

/// Index just past a block comment body that starts at `i` with `depth` open
/// `#|` pairs; `|#` closes the innermost one.  An unterminated comment runs
/// to the end of the input.
pub open spec fn block_comment_end(s: Seq<char>, i: int, depth: int) -> int
    decreases s.len() - i,
{
    if i < 0 || i >= s.len() {
        s.len() as int
    } else if s[i] == '|' && i + 1 < s.len() && s[i + 1] == '#' {
        if depth <= 1 {
            i + 2
        } else {
            block_comment_end(s, i + 2, depth - 1)
        }
    } else if s[i] == '#' && i + 1 < s.len() && s[i + 1] == '|' {
        block_comment_end(s, i + 2, depth + 1)
    } else {
        block_comment_end(s, i + 1, depth)
    }
}

/// A line comment never ends before it starts nor past the input.
pub proof fn lemma_line_comment_end_range(s: Seq<char>, i: int)
    requires
        0 <= i <= s.len(),
    ensures
        i <= line_comment_end(s, i) <= s.len(),
    decreases s.len() - i,
{
    if i < s.len() && !(s[i] == '\n' || s[i] == '\r') {
        lemma_line_comment_end_range(s, i + 1);
    }
}

/// A block comment never ends before it starts nor past the input.
pub proof fn lemma_block_comment_end_range(s: Seq<char>, i: int, depth: int)
    requires
        0 <= i <= s.len(),
    ensures
        i <= block_comment_end(s, i, depth) <= s.len(),
    decreases s.len() - i,
{
    if i < s.len() {
        if s[i] == '|' && i + 1 < s.len() && s[i + 1] == '#' {
            if depth > 1 {
                lemma_block_comment_end_range(s, i + 2, depth - 1);
            }
        } else if s[i] == '#' && i + 1 < s.len() && s[i + 1] == '|' {
            lemma_block_comment_end_range(s, i + 2, depth + 1);
        } else {
            lemma_block_comment_end_range(s, i + 1, depth);
        }
    }
}

/// Scan of an identifier body from `i`, with `acc` already read: subsequent
/// characters extend it, a delimiter or the end of input closes it, anything
/// else is no token.
pub open spec fn scan_subsequent(s: Seq<char>, i: int, acc: Seq<char>) -> Step<Seq<char>>
    decreases s.len() - i,
{
    if i < 0 || i >= s.len() {
        Step::Emit(acc, i)
    } else if spec_subsequent(s[i]) {
        scan_subsequent(s, i + 1, acc.push(s[i]))
    } else if spec_delimiter(s[i]) {
        Step::Emit(acc, i)
    } else {
        Step::Fail(LexerError::UnrecognizedToken, i)
    }
}

/// Scan of a `|`-quoted identifier body from `i`: the closing `|` ends it,
/// and empty content denotes the identifier `||`.
pub open spec fn scan_quoted(s: Seq<char>, i: int, acc: Seq<char>) -> Step<Seq<char>>
    decreases s.len() - i,
{
    if i < 0 || i >= s.len() {
        Step::Fail(LexerError::UnexpectedEnd, s.len() as int)
    } else if s[i] == '|' {
        Step::Emit(if acc.len() == 0 { seq!['|', '|'] } else { acc }, i + 1)
    } else {
        scan_quoted(s, i + 1, acc.push(s[i]))
    }
}

/// Scan of a string body from `i`: the closing quote ends it, a backslash
/// maps its escape character, any other character stands for itself.  The
/// `\x` and `\ ` escapes are accepted and add nothing (a recorded gap).
pub open spec fn scan_string(s: Seq<char>, i: int, acc: Seq<char>) -> Step<Seq<char>>
    decreases s.len() - i,
{
    if i < 0 || i >= s.len() {
        Step::Fail(LexerError::UnexpectedEnd, s.len() as int)
    } else if s[i] == '"' {
        Step::Emit(acc, i + 1)
    } else if s[i] == '\\' {
        if i + 1 >= s.len() {
            Step::Fail(LexerError::UnexpectedEnd, s.len() as int)
        } else {
            let e = s[i + 1];
            if e == 'a' {
                scan_string(s, i + 2, acc.push('\u{7}'))
            } else if e == 'b' {
                scan_string(s, i + 2, acc.push('\u{8}'))
            } else if e == 't' {
                scan_string(s, i + 2, acc.push('\t'))
            } else if e == 'n' {
                scan_string(s, i + 2, acc.push('\n'))
            } else if e == 'r' {
                scan_string(s, i + 2, acc.push('\r'))
            } else if e == '"' {
                scan_string(s, i + 2, acc.push('"'))
            } else if e == '\\' {
                scan_string(s, i + 2, acc.push('\\'))
            } else if e == '|' {
                scan_string(s, i + 2, acc.push('|'))
            } else if e == 'x' || e == ' ' {
                scan_string(s, i + 2, acc)
            } else {
                Step::Fail(LexerError::UnrecognizedToken, i + 2)
            }
        }
    } else {
        scan_string(s, i + 1, acc.push(s[i]))
    }
}

/// Index just past the maximal run of base-`r` digits starting at `i`.
pub open spec fn digits_end(s: Seq<char>, i: int, r: Radix) -> int
    decreases s.len() - i,
{
    if i < 0 || i >= s.len() {
        if i < 0 { i } else { s.len() as int }
    } else if spec_radix_digit(s[i], r) {
        digits_end(s, i + 1, r)
    } else {
        i
    }
}

/// Everything before the end of a digit run is a digit of the base, and the
/// run stays within the input.
pub proof fn lemma_digits_end_range(s: Seq<char>, i: int, r: Radix)
    requires
        0 <= i <= s.len(),
    ensures
        i <= digits_end(s, i, r) <= s.len(),
        forall|m: int| i <= m < digits_end(s, i, r) ==> spec_radix_digit(s[m], r),
    decreases s.len() - i,
{
    if i < s.len() && spec_radix_digit(s[i], r) {
        lemma_digits_end_range(s, i + 1, r);
    }
}

/// Value of a digit string in base `b`, most significant digit first.
pub open spec fn digits_val(s: Seq<char>, b: int) -> int
    decreases s.len(),
{
    if s.len() == 0 {
        0
    } else {
        digits_val(s.drop_last(), b) * b + spec_digit_val(s.last())
    }
}

/// All characters are decimal digits.
pub open spec fn all_dec_digits(s: Seq<char>) -> bool {
    forall|k: int| 0 <= k < s.len() ==> spec_dec_digit(s[k])
}

/// An exponent suffix at `i`: nothing, or `e`, an optional sign, and at
/// least one decimal digit.  Yields the index just past it.
#[verifier::opaque]
pub open spec fn spec_suffix(s: Seq<char>, i: int) -> Step<int> {
    if i < 0 || i >= s.len() || s[i] != 'e' {
        Step::Emit(i, i)
    } else {
        let j = if i + 1 < s.len() && (s[i + 1] == '+' || s[i + 1] == '-') {
            i + 2
        } else {
            i + 1
        };
        let k = digits_end(s, j, Radix::Decimal);
        if k == j {
            Step::Fail(LexerError::UnrecognizedToken, j)
        } else {
            Step::Emit(k, k)
        }
    }
}

/// An unsigned real at `i` under base `r`: digits form an integer, a
/// rational, or with a point or suffix a float; values that do not fit the
/// token's fields, a zero denominator, and float digits beyond the decimal
/// ones are no token.
#[verifier::opaque]
pub open spec fn spec_unreal(s: Seq<char>, i: int, r: Radix) -> Step<RealM> {
    if i < 0 || i >= s.len() {
        Step::Fail(LexerError::UnexpectedEnd, if i < 0 { 0 } else { i })
    } else if spec_radix_digit(s[i], r) {
        let j = digits_end(s, i, r);
        if j >= s.len() || spec_delimiter(s[j]) || s[j] == '@' || s[j] == 'i' || s[j] == '+'
            || s[j] == '-' {
            let v = digits_val(s.subrange(i, j), radix_val(r));
            if v > i64::MAX {
                Step::Fail(LexerError::UnrecognizedToken, i)
            } else {
                Step::Emit(RealM::Int(v), j)
            }
        } else if s[j] == '/' {
            let k = digits_end(s, j + 1, r);
            if k == j + 1 {
                Step::Fail(LexerError::UnrecognizedToken, j + 1)
            } else {
                let n = digits_val(s.subrange(i, j), radix_val(r));
                let d = digits_val(s.subrange(j + 1, k), radix_val(r));
                if n > i64::MAX || d > u64::MAX || d == 0 {
                    Step::Fail(LexerError::UnrecognizedToken, i)
                } else {
                    Step::Emit(RealM::Rat(n, d), k)
                }
            }
        } else if s[j] == '.' {
            let k = digits_end(s, j + 1, r);
            match spec_suffix(s, k) {
                Step::Fail(e, p) => Step::Fail(e, p),
                Step::Emit(_, e) => if all_dec_digits(s.subrange(i, j)) && all_dec_digits(
                    s.subrange(j + 1, k),
                ) {
                    Step::Emit(RealM::Flt(s.subrange(i, e)), e)
                } else {
                    Step::Fail(LexerError::UnrecognizedToken, i)
                },
            }
        } else if s[j] == 'e' {
            match spec_suffix(s, j) {
                Step::Fail(e, p) => Step::Fail(e, p),
                Step::Emit(_, e) => if all_dec_digits(s.subrange(i, j)) {
                    Step::Emit(RealM::Flt(s.subrange(i, e)), e)
                } else {
                    Step::Fail(LexerError::UnrecognizedToken, i)
                },
            }
        } else {
            Step::Fail(LexerError::UnrecognizedToken, i)
        }
    } else if s[i] == '.' {
        let k = digits_end(s, i + 1, r);
        if k == i + 1 {
            Step::Fail(LexerError::UnrecognizedToken, i + 1)
        } else {
            match spec_suffix(s, k) {
                Step::Fail(e, p) => Step::Fail(e, p),
                Step::Emit(_, e) => if all_dec_digits(s.subrange(i + 1, k)) {
                    Step::Emit(RealM::Flt(s.subrange(i, e)), e)
                } else {
                    Step::Fail(LexerError::UnrecognizedToken, i)
                },
            }
        }
    } else {
        Step::Fail(LexerError::UnrecognizedToken, i)
    }
}

/// The infnan lexemes.
pub open spec fn inf_seq() -> Seq<char> {
    seq!['i', 'n', 'f', '.', '0']
}

/// See `inf_seq`.
pub open spec fn nan_seq() -> Seq<char> {
    seq!['n', 'a', 'n', '.', '0']
}

/// A signed infinity or NaN at `i`: the sign character, then `inf.0` or
/// `nan.0`.
#[verifier::opaque]
pub open spec fn spec_infnan(s: Seq<char>, i: int) -> Step<RealM> {
    if 0 <= i && i + 6 <= s.len() && s.subrange(i + 1, i + 6) == inf_seq() {
        Step::Emit(if s[i] == '+' { RealM::PosInf } else { RealM::NegInf }, i + 6)
    } else if 0 <= i && i + 6 <= s.len() && s.subrange(i + 1, i + 6) == nan_seq() {
        Step::Emit(if s[i] == '+' { RealM::PosNan } else { RealM::NegNan }, i + 6)
    } else {
        Step::Fail(LexerError::UnrecognizedToken, i + 1)
    }
}

/// A signed or unsigned real at `i` under base `r`: a sign followed by `i`
/// or `n` must open an infnan; otherwise the sign is applied to the
/// unsigned real after it.
#[verifier::opaque]
pub open spec fn spec_real(s: Seq<char>, i: int, r: Radix) -> Step<RealM> {
    if 0 <= i && i + 1 < s.len() && (s[i] == '+' || s[i] == '-') && (s[i + 1] == 'i' || s[i + 1]
        == 'n') {
        spec_infnan(s, i)
    } else if 0 <= i && i < s.len() && s[i] == '+' {
        spec_unreal(s, i + 1, r)
    } else if 0 <= i && i < s.len() && s[i] == '-' {
        match spec_unreal(s, i + 1, r) {
            Step::Emit(m, e) => Step::Emit(real_m_reverse(m), e),
            Step::Fail(e, p) => Step::Fail(e, p),
        }
    } else {
        spec_unreal(s, i, r)
    }
}

/// A numeric literal at `i` under base `r`, in its twelve shapes: a real
/// alone before a delimiter; two reals joined by `@`; a real and a signed
/// imaginary part closed by `i`, the magnitude an implicit one when absent;
/// or a signed pure imaginary.
#[verifier::opaque]
pub open spec fn spec_complex(s: Seq<char>, i: int, r: Radix) -> Step<ComplexM> {
    if 0 <= i && i + 1 < s.len() && (s[i] == '+' || s[i] == '-') && s[i + 1] == 'i' && (i + 2
        >= s.len() || spec_delimiter(s[i + 2])) {
        Step::Emit(
            ComplexM::Imag(RealM::Int(if s[i] == '+' { 1int } else { -1int })),
            i + 2,
        )
    } else {
        match spec_real(s, i, r) {
            Step::Fail(e, p) => Step::Fail(e, p),
            Step::Emit(r1, j) => if j >= s.len() || spec_delimiter(s[j]) {
                Step::Emit(ComplexM::Single(r1), j)
            } else if s[j] == '@' {
                match spec_real(s, j + 1, r) {
                    Step::Fail(e, p) => Step::Fail(e, p),
                    Step::Emit(r2, k) => Step::Emit(ComplexM::Rect(r1, r2), k),
                }
            } else if s[j] == '+' || s[j] == '-' {
                if j + 6 <= s.len() && (s.subrange(j + 1, j + 6) == inf_seq() || s.subrange(
                    j + 1,
                    j + 6,
                ) == nan_seq()) {
                    match spec_infnan(s, j) {
                        Step::Fail(e, p) => Step::Fail(e, p),
                        Step::Emit(r2, k) => if k < s.len() && s[k] == 'i' {
                            Step::Emit(ComplexM::Rect(r1, r2), k + 1)
                        } else if k >= s.len() {
                            Step::Fail(LexerError::UnexpectedEnd, k)
                        } else {
                            Step::Fail(LexerError::UnrecognizedToken, k)
                        },
                    }
                } else if j + 1 < s.len() && s[j + 1] == 'i' {
                    Step::Emit(
                        ComplexM::Rect(r1, RealM::Int(if s[j] == '+' { 1int } else { -1int })),
                        j + 2,
                    )
                } else {
                    match spec_real(s, j, r) {
                        Step::Fail(e, p) => Step::Fail(e, p),
                        Step::Emit(r2, k) => if k < s.len() && s[k] == 'i' {
                            Step::Emit(ComplexM::Rect(r1, r2), k + 1)
                        } else if k >= s.len() {
                            Step::Fail(LexerError::UnexpectedEnd, k)
                        } else {
                            Step::Fail(LexerError::UnrecognizedToken, k)
                        },
                    }
                }
            } else if s[j] == 'i' {
                if s[i] == '+' || s[i] == '-' {
                    Step::Emit(ComplexM::Imag(r1), j + 1)
                } else {
                    Step::Fail(LexerError::UnrecognizedToken, j)
                }
            } else {
                Step::Fail(LexerError::UnrecognizedToken, j)
            },
        }
    }
}

/// A `#` number prefix at `i`: one or two of an exactness letter and a base
/// letter, each class at most once, each introduced by `#`.  Defaults are
/// base ten, exact.
#[verifier::opaque]
pub open spec fn spec_prefix(s: Seq<char>, i: int) -> Step<(Radix, bool)> {
    if i < 0 || i + 1 >= s.len() {
        Step::Fail(LexerError::UnexpectedEnd, i + 1)
    } else {
        let c1 = s[i + 1];
        if i + 2 < s.len() && s[i + 2] == '#' {
            if i + 3 >= s.len() {
                Step::Fail(LexerError::UnexpectedEnd, i + 3)
            } else {
                let c2 = s[i + 3];
                if (c2 == 'e' || c2 == 'i') && (c1 == 'e' || c1 == 'i') {
                    Step::Fail(LexerError::UnrecognizedToken, i + 4)
                } else if (c2 == 'b' || c2 == 'o' || c2 == 'd' || c2 == 'x') && (c1 == 'b' || c1
                    == 'o' || c1 == 'd' || c1 == 'x') {
                    Step::Fail(LexerError::UnrecognizedToken, i + 4)
                } else if c2 == 'e' || c2 == 'i' || c2 == 'b' || c2 == 'o' || c2 == 'd' || c2
                    == 'x' {
                    Step::Emit((prefix_radix(c1, c2), prefix_exact(c1, c2)), i + 4)
                } else {
                    Step::Fail(LexerError::UnrecognizedToken, i + 4)
                }
            }
        } else {
            Step::Emit((prefix_radix(c1, ' '), prefix_exact(c1, ' ')), i + 2)
        }
    }
}

/// The base named by either prefix letter, base ten when neither names one.
pub open spec fn prefix_radix(c1: char, c2: char) -> Radix {
    if c1 == 'b' || c2 == 'b' {
        Radix::Binary
    } else if c1 == 'o' || c2 == 'o' {
        Radix::Octal
    } else if c1 == 'x' || c2 == 'x' {
        Radix::Hexadecimal
    } else {
        Radix::Decimal
    }
}

/// The exactness named by either prefix letter, exact when neither names
/// one.
pub open spec fn prefix_exact(c1: char, c2: char) -> bool {
    if c1 == 'i' || c2 == 'i' {
        false
    } else {
        true
    }
}

/// A peculiar identifier at `i`: a sign alone before a delimiter or the end
/// of input, or a sign or dot extended by suitable characters.
#[verifier::opaque]
pub open spec fn spec_peculiar(s: Seq<char>, i: int) -> Step<Seq<char>> {
    if i < 0 || i >= s.len() {
        Step::Fail(LexerError::UnexpectedEnd, i)
    } else if s[i] == '+' || s[i] == '-' {
        if i + 1 >= s.len() || spec_delimiter(s[i + 1]) {
            Step::Emit(seq![s[i]], i + 1)
        } else if spec_sign_subsequent(s[i + 1]) {
            scan_subsequent(s, i + 2, seq![s[i], s[i + 1]])
        } else if s[i + 1] == '.' {
            if i + 2 >= s.len() {
                Step::Fail(LexerError::UnexpectedEnd, i + 2)
            } else if spec_sign_subsequent(s[i + 2]) || s[i + 2] == '.' {
                scan_subsequent(s, i + 3, seq![s[i], '.', s[i + 2]])
            } else {
                Step::Fail(LexerError::UnrecognizedToken, i + 2)
            }
        } else {
            Step::Fail(LexerError::UnrecognizedToken, i + 1)
        }
    } else {
        if i + 1 >= s.len() {
            Step::Fail(LexerError::UnexpectedEnd, i + 1)
        } else if spec_sign_subsequent(s[i + 1]) || s[i + 1] == '.' {
            scan_subsequent(s, i + 2, seq![s[i], s[i + 1]])
        } else {
            Step::Fail(LexerError::UnrecognizedToken, i + 1)
        }
    }
}

/// A numeric token at `i` whose prefix, if any, was already read: the body
/// begins at `j` under base `r`.
pub open spec fn number_token(s: Seq<char>, i: int, j: int, r: Radix) -> NextM {
    match spec_complex(s, j, r) {
        Step::Fail(e, p) => NextM::FailM(e, p),
        Step::Emit(cm, e) => NextM::TokM(TokenM::Prim(PrimM::Num(cm)), i, e),
    }
}

/// The token the input holds at position `i`: whitespace and comments are
/// passed over, then the first character decides which recognizer speaks.
pub open spec fn spec_next_token(s: Seq<char>, i: int) -> NextM
    decreases s.len() - i,
{
    if i < 0 {
        NextM::FailM(LexerError::UnexpectedBegin, i)
    } else if i >= s.len() {
        NextM::EndM
    } else if spec_whitespace(s[i]) {
        spec_next_token(s, i + 1)
    } else if s[i] == ';' {
        let e = line_comment_end(s, i + 1);
        if i < e && e <= s.len() {
            spec_next_token(s, e)
        } else {
            NextM::EndM
        }
    } else if s[i] == '(' {
        NextM::TokM(TokenM::LParen, i, i + 1)
    } else if s[i] == ')' {
        NextM::TokM(TokenM::RParen, i, i + 1)
    } else if s[i] == '\'' {
        NextM::TokM(TokenM::QuoteM, i, i + 1)
    } else if s[i] == '`' {
        NextM::TokM(TokenM::QuasiquoteM, i, i + 1)
    } else if s[i] == ',' {
        if i + 1 < s.len() && s[i + 1] == '@' {
            NextM::TokM(TokenM::UnquoteSplicingM, i, i + 2)
        } else {
            NextM::TokM(TokenM::UnquoteM, i, i + 1)
        }
    } else if s[i] == '#' {
        if i + 1 >= s.len() {
            NextM::FailM(LexerError::UnexpectedEnd, i)
        } else if s[i + 1] == '|' {
            let e = block_comment_end(s, i + 2, 1);
            if i < e && e <= s.len() {
                spec_next_token(s, e)
            } else {
                NextM::EndM
            }
        } else if s[i + 1] == '(' {
            NextM::TokM(TokenM::VecIntro, i, i + 2)
        } else if s[i + 1] == 't' {
            NextM::TokM(TokenM::Prim(PrimM::Bool(true)), i, i + 2)
        } else if s[i + 1] == 'f' {
            NextM::TokM(TokenM::Prim(PrimM::Bool(false)), i, i + 2)
        } else if s[i + 1] == '\\' {
            if i + 2 < s.len() {
                NextM::TokM(TokenM::Prim(PrimM::Chr(s[i + 2])), i, i + 3)
            } else {
                NextM::FailM(LexerError::UnexpectedEnd, i)
            }
        } else if s[i + 1] == 'u' {
            if i + 3 < s.len() && s[i + 2] == '8' && s[i + 3] == '(' {
                NextM::TokM(TokenM::ByteVecIntro, i, i + 4)
            } else {
                NextM::FailM(LexerError::UnrecognizedToken, i)
            }
        } else if s[i + 1] == 'e' || s[i + 1] == 'i' || s[i + 1] == 'b' || s[i + 1] == 'o' || s[i
            + 1] == 'd' || s[i + 1] == 'x' {
            match spec_prefix(s, i) {
                Step::Fail(e, p) => NextM::FailM(e, p),
                Step::Emit((r, _exact), j) => number_token(s, i, j, r),
            }
        } else {
            NextM::FailM(LexerError::UnrecognizedToken, i)
        }
    } else if s[i] == '.' {
        if i + 1 >= s.len() || spec_delimiter(s[i + 1]) {
            NextM::TokM(TokenM::PeriodM, i, i + 1)
        } else if spec_dec_digit(s[i + 1]) {
            number_token(s, i, i, Radix::Decimal)
        } else {
            match spec_peculiar(s, i) {
                Step::Fail(e, p) => NextM::FailM(e, p),
                Step::Emit(name, e) => NextM::TokM(TokenM::Ident(name), i, e),
            }
        }
    } else if s[i] == '+' || s[i] == '-' {
        if i + 1 < s.len() && (spec_dec_digit(s[i + 1]) || s[i + 1] == '.') {
            number_token(s, i, i, Radix::Decimal)
        } else if i + 1 < s.len() && s[i + 1] == 'i' && (i + 2 >= s.len() || spec_delimiter(
            s[i + 2],
        )) {
            number_token(s, i, i, Radix::Decimal)
        } else if i + 6 <= s.len() && s.subrange(i + 1, i + 6) == inf_seq() {
            number_token(s, i, i, Radix::Decimal)
        } else if i + 6 <= s.len() && s.subrange(i + 1, i + 6) == nan_seq() {
            number_token(s, i, i, Radix::Decimal)
        } else {
            match spec_peculiar(s, i) {
                Step::Fail(e, p) => NextM::FailM(e, p),
                Step::Emit(name, e) => NextM::TokM(TokenM::Ident(name), i, e),
            }
        }
    } else if spec_dec_digit(s[i]) {
        number_token(s, i, i, Radix::Decimal)
    } else if s[i] == '"' {
        match scan_string(s, i + 1, Seq::empty()) {
            Step::Fail(e, p) => NextM::FailM(e, p),
            Step::Emit(content, e) => NextM::TokM(TokenM::Prim(PrimM::Str(content)), i, e),
        }
    } else if s[i] == '|' {
        match scan_quoted(s, i + 1, Seq::empty()) {
            Step::Fail(e, p) => NextM::FailM(e, p),
            Step::Emit(name, e) => NextM::TokM(TokenM::Ident(name), i, e),
        }
    } else if spec_identifier_initial(s[i]) {
        match scan_subsequent(s, i + 1, seq![s[i]]) {
            Step::Fail(e, p) => NextM::FailM(e, p),
            Step::Emit(name, e) => NextM::TokM(TokenM::Ident(name), i, e),
        }
    } else {
        NextM::FailM(LexerError::UnexpectedBegin, i)
    }
}

/// The tokens of the whole input from `i` on, each with the index of its
/// first character; the first lexical error, where one occurs.
pub open spec fn spec_tokens(s: Seq<char>, i: int) -> Result<Seq<(TokenM, int)>, (LexerError, int)>
    decreases s.len() - i,
{
    match spec_next_token(s, i) {
        NextM::EndM => Ok(Seq::empty()),
        NextM::FailM(e, p) => Err((e, p)),
        NextM::TokM(t, st, e) => if i < e && e <= s.len() {
            match spec_tokens(s, e) {
                Ok(rest) => Ok(seq![(t, st)] + rest),
                Err(x) => Err(x),
            }
        } else {
            Ok(seq![(t, st)])
        },
    }
}

/// One unfolding of `spec_tokens`: the first step decides emptiness, error,
/// or one token followed by the tokens after it.
pub proof fn lemma_spec_tokens_step(s: Seq<char>, i: int)
    requires
        0 <= i <= s.len(),
    ensures
        match spec_next_token(s, i) {
            NextM::EndM => spec_tokens(s, i) == Ok::<Seq<(TokenM, int)>, (LexerError, int)>(
                Seq::empty(),
            ),
            NextM::FailM(e, p) => spec_tokens(s, i) == Err::<Seq<(TokenM, int)>, (LexerError, int)>(
                (e, p),
            ),
            NextM::TokM(t, st, e) => i < e <= s.len() ==> spec_tokens(s, i) == (match spec_tokens(
                s,
                e,
            ) {
                Ok(rest) => Ok::<Seq<(TokenM, int)>, (LexerError, int)>(seq![(t, st)] + rest),
                Err(x) => Err::<Seq<(TokenM, int)>, (LexerError, int)>(x),
            }),
        },
{
}

/// An identifier body scan never moves backwards nor past the input.
pub proof fn lemma_scan_subsequent_range(s: Seq<char>, i: int, acc: Seq<char>)
    requires
        0 <= i <= s.len(),
    ensures
        match scan_subsequent(s, i, acc) {
            Step::Emit(_, e) => i <= e <= s.len(),
            Step::Fail(_, _) => true,
        },
    decreases s.len() - i,
{
    if i < s.len() && spec_subsequent(s[i]) {
        lemma_scan_subsequent_range(s, i + 1, acc.push(s[i]));
    }
}

/// A quoted identifier scan ends past where it starts, within the input.
pub proof fn lemma_scan_quoted_range(s: Seq<char>, i: int, acc: Seq<char>)
    requires
        0 <= i <= s.len(),
    ensures
        match scan_quoted(s, i, acc) {
            Step::Emit(_, e) => i < e <= s.len(),
            Step::Fail(_, _) => true,
        },
    decreases s.len() - i,
{
    if i < s.len() && s[i] != '|' {
        lemma_scan_quoted_range(s, i + 1, acc.push(s[i]));
    }
}

/// A string scan ends past where it starts, within the input.
pub proof fn lemma_scan_string_range(s: Seq<char>, i: int, acc: Seq<char>)
    requires
        0 <= i <= s.len(),
    ensures
        match scan_string(s, i, acc) {
            Step::Emit(_, e) => i < e <= s.len(),
            Step::Fail(_, _) => true,
        },
    decreases s.len() - i,
{
    if i < s.len() && s[i] != '"' {
        if s[i] == '\\' {
            if i + 1 < s.len() {
                let e = s[i + 1];
                if e == 'a' {
                    lemma_scan_string_range(s, i + 2, acc.push('\u{7}'));
                } else if e == 'b' {
                    lemma_scan_string_range(s, i + 2, acc.push('\u{8}'));
                } else if e == 't' {
                    lemma_scan_string_range(s, i + 2, acc.push('\t'));
                } else if e == 'n' {
                    lemma_scan_string_range(s, i + 2, acc.push('\n'));
                } else if e == 'r' {
                    lemma_scan_string_range(s, i + 2, acc.push('\r'));
                } else if e == '"' {
                    lemma_scan_string_range(s, i + 2, acc.push('"'));
                } else if e == '\\' {
                    lemma_scan_string_range(s, i + 2, acc.push('\\'));
                } else if e == '|' {
                    lemma_scan_string_range(s, i + 2, acc.push('|'));
                } else if e == 'x' || e == ' ' {
                    lemma_scan_string_range(s, i + 2, acc);
                }
            }
        } else {
            lemma_scan_string_range(s, i + 1, acc.push(s[i]));
        }
    }
}

/// An exponent suffix ends at or past where it starts, within the input.
pub proof fn lemma_spec_suffix_range(s: Seq<char>, i: int)
    requires
        0 <= i <= s.len(),
    ensures
        match spec_suffix(s, i) {
            Step::Emit(_, e) => i <= e <= s.len(),
            Step::Fail(_, _) => true,
        },
{
    reveal(spec_suffix);
    if i < s.len() && s[i] == 'e' {
        let j = if i + 1 < s.len() && (s[i + 1] == '+' || s[i + 1] == '-') {
            i + 2
        } else {
            i + 1
        };
        lemma_digits_end_range(s, j, Radix::Decimal);
    }
}

/// An unsigned real ends past where it starts, within the input.
pub proof fn lemma_spec_unreal_range(s: Seq<char>, i: int, r: Radix)
    requires
        0 <= i <= s.len(),
    ensures
        match spec_unreal(s, i, r) {
            Step::Emit(_, e) => i < e <= s.len(),
            Step::Fail(_, _) => true,
        },
{
    reveal(spec_unreal);
    if i < s.len() {
        if spec_radix_digit(s[i], r) {
            lemma_digits_end_range(s, i, r);
            lemma_digits_end_range(s, i + 1, r);
            let j = digits_end(s, i, r);
            if j < s.len() {
                if s[j] == '/' {
                    lemma_digits_end_range(s, j + 1, r);
                } else if s[j] == '.' {
                    lemma_digits_end_range(s, j + 1, r);
                    lemma_spec_suffix_range(s, digits_end(s, j + 1, r));
                } else if s[j] == 'e' {
                    lemma_spec_suffix_range(s, j);
                }
            }
        } else if s[i] == '.' {
            lemma_digits_end_range(s, i + 1, r);
            lemma_spec_suffix_range(s, digits_end(s, i + 1, r));
        }
    }
}

/// A signed real ends past where it starts, within the input.
pub proof fn lemma_spec_real_range(s: Seq<char>, i: int, r: Radix)
    requires
        0 <= i <= s.len(),
    ensures
        match spec_real(s, i, r) {
            Step::Emit(_, e) => i < e <= s.len(),
            Step::Fail(_, _) => true,
        },
{
    reveal(spec_real);
    reveal(spec_infnan);
    lemma_spec_unreal_range(s, i, r);
    if i < s.len() {
        lemma_spec_unreal_range(s, i + 1, r);
    }
}

/// A numeric literal ends past where it starts, within the input.
pub proof fn lemma_spec_complex_range(s: Seq<char>, i: int, r: Radix)
    requires
        0 <= i <= s.len(),
    ensures
        match spec_complex(s, i, r) {
            Step::Emit(_, e) => i < e <= s.len(),
            Step::Fail(_, _) => true,
        },
{
    reveal(spec_complex);
    reveal(spec_infnan);
    lemma_spec_real_range(s, i, r);
    match spec_real(s, i, r) {
        Step::Emit(_, j) => {
            if j < s.len() {
                lemma_spec_real_range(s, j + 1, r);
                lemma_spec_real_range(s, j, r);
            }
        },
        Step::Fail(_, _) => {},
    }
}

/// A number prefix ends past where it starts, within the input.
pub proof fn lemma_spec_prefix_range(s: Seq<char>, i: int)
    requires
        0 <= i <= s.len(),
    ensures
        match spec_prefix(s, i) {
            Step::Emit(_, e) => i < e <= s.len(),
            Step::Fail(_, _) => true,
        },
{
    reveal(spec_prefix);
}

/// A peculiar identifier ends past where it starts, within the input.
pub proof fn lemma_spec_peculiar_range(s: Seq<char>, i: int)
    requires
        0 <= i <= s.len(),
    ensures
        match spec_peculiar(s, i) {
            Step::Emit(_, e) => i < e <= s.len(),
            Step::Fail(_, _) => true,
        },
{
    reveal(spec_peculiar);
    if i + 1 < s.len() {
        lemma_scan_subsequent_range(s, i + 2, seq![s[i], s[i + 1]]);
        if (s[i] == '+' || s[i] == '-') && s[i + 1] == '.' && i + 2 < s.len() {
            lemma_scan_subsequent_range(s, i + 3, seq![s[i], '.', s[i + 2]]);
        }
    }
}

/// A token spans at least one character, starts where the trivia before it
/// ends, and ends within the input.
pub proof fn lemma_next_token_range(s: Seq<char>, i: int)
    requires
        0 <= i <= s.len(),
    ensures
        match spec_next_token(s, i) {
            NextM::TokM(_, st, e) => i <= st && st < e && e <= s.len(),
            _ => true,
        },
    decreases s.len() - i,
{
    if i < s.len() {
        if spec_whitespace(s[i]) {
            lemma_next_token_range(s, i + 1);
        } else if s[i] == ';' {
            lemma_line_comment_end_range(s, i + 1);
            let e = line_comment_end(s, i + 1);
            if i < e && e <= s.len() {
                lemma_next_token_range(s, e);
            }
        } else if s[i] == '#' && i + 1 < s.len() && s[i + 1] == '|' {
            lemma_block_comment_end_range(s, i + 2, 1);
            let e = block_comment_end(s, i + 2, 1);
            if i < e && e <= s.len() {
                lemma_next_token_range(s, e);
            }
        } else if s[i] == '#' && i + 1 < s.len() && (s[i + 1] == 'e' || s[i + 1] == 'i' || s[i
            + 1] == 'b' || s[i + 1] == 'o' || s[i + 1] == 'd' || s[i + 1] == 'x') {
            lemma_spec_prefix_range(s, i);
            match spec_prefix(s, i) {
                Step::Emit(_, j) => {
                    lemma_spec_complex_range(s, j, prefix_radix_of(s, i));
                },
                Step::Fail(_, _) => {},
            }
        } else if s[i] == '.' || s[i] == '+' || s[i] == '-' || spec_dec_digit(s[i]) {
            lemma_spec_complex_range(s, i, Radix::Decimal);
            lemma_spec_peculiar_range(s, i);
        } else if s[i] == '"' {
            lemma_scan_string_range(s, i + 1, Seq::empty());
        } else if s[i] == '|' {
            lemma_scan_quoted_range(s, i + 1, Seq::empty());
        } else if spec_identifier_initial(s[i]) {
            lemma_scan_subsequent_range(s, i + 1, seq![s[i]]);
        }
    }
}

/// The base a prefix at `i` names.
pub open spec fn prefix_radix_of(s: Seq<char>, i: int) -> Radix {
    match spec_prefix(s, i) {
        Step::Emit((r, _), _) => r,
        Step::Fail(_, _) => Radix::Decimal,
    }
}

/// Token starts never decrease, and each lies within the input: the spine
/// of the location-monotonicity law.
pub proof fn lemma_spec_tokens_starts(s: Seq<char>, i: int)
    requires
        0 <= i <= s.len(),
    ensures
        match spec_tokens(s, i) {
            Ok(ms) => (forall|k: int| 0 <= k < ms.len() ==> i <= (#[trigger] ms[k]).1 <= s.len())
                && (forall|a: int, b: int|
                0 <= a <= b < ms.len() ==> (#[trigger] ms[a]).1 <= (#[trigger] ms[b]).1),
            Err(_) => true,
        },
    decreases s.len() - i,
{
    lemma_next_token_range(s, i);
    match spec_next_token(s, i) {
        NextM::TokM(t, st, e) => {
            if i < e && e <= s.len() {
                lemma_spec_tokens_starts(s, e);
            }
        },
        _ => {},
    }
}

/// Location monotonicity: in a successful lexing of the whole input, token
/// locations are non-decreasing in row-then-column order.
pub proof fn lemma_token_locations_monotone(s: Seq<char>, a: int, b: int)
    requires
        spec_tokens(s, 0) is Ok,
        0 <= a <= b < spec_tokens(s, 0)->Ok_0.len(),
    ensures
        crate::located::loc_le(
            crate::located::loc_after(s.take(spec_tokens(s, 0)->Ok_0[a].1)),
            crate::located::loc_after(s.take(spec_tokens(s, 0)->Ok_0[b].1)),
        ),
{
    lemma_spec_tokens_starts(s, 0);
    let ms = spec_tokens(s, 0)->Ok_0;
    crate::located::lemma_loc_after_monotone(s, ms[a].1, ms[b].1);
}

/// Whitespace transparency: a whitespace character adds no token and moves
/// lexing one character on.
pub proof fn lemma_whitespace_transparent(s: Seq<char>, i: int)
    requires
        0 <= i < s.len(),
        spec_whitespace(s[i]),
    ensures
        spec_next_token(s, i) == spec_next_token(s, i + 1),
        spec_tokens(s, i) == spec_tokens(s, i + 1),
{
    lemma_next_token_range(s, i);
    lemma_next_token_range(s, i + 1);
}

/// Comment transparency: a line comment, and a properly nested block
/// comment, add no token and do not alter the tokens after them.
pub proof fn lemma_comment_transparent(s: Seq<char>, i: int)
    requires
        0 <= i < s.len(),
    ensures
        s[i] == ';' ==> spec_tokens(s, i) == spec_tokens(s, line_comment_end(s, i + 1)),
        (s[i] == '#' && i + 1 < s.len() && s[i + 1] == '|') ==> spec_tokens(s, i) == spec_tokens(
            s,
            block_comment_end(s, i + 2, 1),
        ),
{
    lemma_next_token_range(s, i);
    if s[i] == ';' {
        lemma_line_comment_end_range(s, i + 1);
        lemma_next_token_range(s, line_comment_end(s, i + 1));
    }
    if s[i] == '#' && i + 1 < s.len() && s[i + 1] == '|' {
        lemma_block_comment_end_range(s, i + 2, 1);
        lemma_next_token_range(s, block_comment_end(s, i + 2, 1));
    }
}

/// A lexically legal ordinary identifier: an initial character followed by
/// subsequent ones.
pub open spec fn legal_normal_identifier(s: Seq<char>) -> bool {
    s.len() >= 1 && spec_identifier_initial(s[0]) && (forall|k: int|
        1 <= k < s.len() ==> spec_subsequent(#[trigger] s[k]))
}

/// A lexically legal quoted identifier: content free of vertical lines
/// between two of them.
pub open spec fn legal_quoted_identifier(s: Seq<char>) -> bool {
    s.len() >= 2 && s[0] == '|' && s.last() == '|' && (forall|k: int|
        1 <= k < s.len() - 1 ==> #[trigger] s[k] != '|')
}

/// What a legal identifier lexeme denotes: quoted identifiers strip the
/// surrounding lines, except that empty content denotes `||` itself.
pub open spec fn identifier_denotation(s: Seq<char>) -> Seq<char> {
    if legal_quoted_identifier(s) {
        if s.len() == 2 {
            s
        } else {
            s.subrange(1, s.len() - 1)
        }
    } else {
        s
    }
}

/// A run of subsequent characters extends the accumulator to the end of the
/// input.
proof fn lemma_scan_subsequent_all(s: Seq<char>, j: int, acc: Seq<char>)
    requires
        0 <= j <= s.len(),
        forall|k: int| j <= k < s.len() ==> spec_subsequent(#[trigger] s[k]),
    ensures
        scan_subsequent(s, j, acc) == Step::Emit(acc + s.subrange(j, s.len() as int), s.len() as int),
    decreases s.len() - j,
{
    if j >= s.len() {
        assert(acc + s.subrange(j, s.len() as int) =~= acc);
    } else {
        lemma_scan_subsequent_all(s, j + 1, acc.push(s[j]));
        assert(acc.push(s[j]) + s.subrange(j + 1, s.len() as int) =~= acc + s.subrange(
            j,
            s.len() as int,
        ));
    }
}

/// A quoted identifier's content scan reaches the closing line.
proof fn lemma_scan_quoted_all(s: Seq<char>, j: int, acc: Seq<char>)
    requires
        0 <= j < s.len(),
        s.last() == '|',
        forall|k: int| j <= k < s.len() - 1 ==> #[trigger] s[k] != '|',
    ensures
        scan_quoted(s, j, acc) == Step::Emit(
            if acc.len() + (s.len() - 1 - j) == 0 {
                seq!['|', '|']
            } else {
                acc + s.subrange(j, s.len() - 1)
            },
            s.len() as int,
        ),
    decreases s.len() - j,
{
    if j == s.len() - 1 {
        assert(acc + s.subrange(j, s.len() - 1) =~= acc);
        if acc.len() == 0 {
        } else {
        }
    } else {
        lemma_scan_quoted_all(s, j + 1, acc.push(s[j]));
        assert(acc.push(s[j]) + s.subrange(j + 1, s.len() - 1) =~= acc + s.subrange(
            j,
            s.len() - 1,
        ));
    }
}

/// Identifier round trip, ordinary form: lexing a legal ordinary identifier
/// alone yields exactly one identifier token carrying it verbatim.
pub proof fn lemma_identifier_round_trip(s: Seq<char>)
    requires
        legal_normal_identifier(s),
    ensures
        spec_tokens(s, 0) == Ok::<Seq<(TokenM, int)>, (LexerError, int)>(
            seq![(TokenM::Ident(s), 0int)],
        ),
{
    lemma_scan_subsequent_all(s, 1, seq![s[0]]);
    assert(seq![s[0]] + s.subrange(1, s.len() as int) =~= s);
    assert(spec_next_token(s, 0) == NextM::TokM(TokenM::Ident(s), 0, s.len() as int));
    assert(spec_tokens(s, s.len() as int) == Ok::<Seq<(TokenM, int)>, (LexerError, int)>(
        Seq::empty(),
    ));
    assert(seq![(TokenM::Ident(s), 0int)] + Seq::<(TokenM, int)>::empty() =~= seq![
        (TokenM::Ident(s), 0int),
    ]);
}

/// Identifier round trip, quoted form: lexing a legal quoted identifier
/// alone yields exactly one identifier token carrying its denotation.
pub proof fn lemma_quoted_identifier_round_trip(s: Seq<char>)
    requires
        legal_quoted_identifier(s),
    ensures
        spec_tokens(s, 0) == Ok::<Seq<(TokenM, int)>, (LexerError, int)>(
            seq![(TokenM::Ident(identifier_denotation(s)), 0int)],
        ),
{
    lemma_scan_quoted_all(s, 1, Seq::empty());
    if s.len() == 2 {
        assert(identifier_denotation(s) =~= seq!['|', '|']);
        assert(s =~= seq!['|', '|']);
    } else {
        assert(Seq::<char>::empty() + s.subrange(1, s.len() - 1) =~= s.subrange(1, s.len() - 1));
    }
    assert(spec_next_token(s, 0) == NextM::TokM(
        TokenM::Ident(identifier_denotation(s)),
        0,
        s.len() as int,
    ));
    assert(spec_tokens(s, s.len() as int) == Ok::<Seq<(TokenM, int)>, (LexerError, int)>(
        Seq::empty(),
    ));
    assert(seq![(TokenM::Ident(identifier_denotation(s)), 0int)] + Seq::<(TokenM, int)>::empty()
        =~= seq![(TokenM::Ident(identifier_denotation(s)), 0int)]);
}

/// A lexically legal sign-opened peculiar identifier: a sign alone, or a
/// sign, a sign-subsequent character, and subsequent ones.  The lexemes the
/// numeric grammar claims first, `+i`, `-i` and the infnan openings, are
/// numbers, not identifiers, and stand outside this shape.
pub open spec fn legal_sign_identifier(s: Seq<char>) -> bool {
    &&& s.len() >= 1
    &&& (s[0] == '+' || s[0] == '-')
    &&& (s.len() == 1 || (spec_sign_subsequent(s[1]) && forall|k: int|
        2 <= k < s.len() ==> spec_subsequent(#[trigger] s[k])))
    &&& !(s.len() == 2 && s[1] == 'i')
    &&& !(s.len() >= 6 && (s.subrange(1, 6) == inf_seq() || s.subrange(1, 6) == nan_seq()))
}

/// A lexically legal dot-opened peculiar identifier: a dot, a
/// sign-subsequent character or another dot, and subsequent ones.
pub open spec fn legal_dot_identifier(s: Seq<char>) -> bool {
    &&& s.len() >= 2
    &&& s[0] == '.'
    &&& (spec_sign_subsequent(s[1]) || s[1] == '.')
    &&& forall|k: int| 2 <= k < s.len() ==> spec_subsequent(#[trigger] s[k])
}

/// Identifier round trip, sign-opened peculiar form.
pub proof fn lemma_sign_identifier_round_trip(s: Seq<char>)
    requires
        legal_sign_identifier(s),
    ensures
        spec_tokens(s, 0) == Ok::<Seq<(TokenM, int)>, (LexerError, int)>(
            seq![(TokenM::Ident(s), 0int)],
        ),
{
    reveal(spec_peculiar);
    if s.len() == 1 {
        assert(seq![s[0]] =~= s);
    } else {
        lemma_scan_subsequent_all(s, 2, seq![s[0], s[1]]);
        assert(seq![s[0], s[1]] + s.subrange(2, s.len() as int) =~= s);
    }
    assert(spec_next_token(s, 0) == NextM::TokM(TokenM::Ident(s), 0, s.len() as int));
    assert(spec_tokens(s, s.len() as int) == Ok::<Seq<(TokenM, int)>, (LexerError, int)>(
        Seq::empty(),
    ));
    assert(seq![(TokenM::Ident(s), 0int)] + Seq::<(TokenM, int)>::empty() =~= seq![
        (TokenM::Ident(s), 0int),
    ]);
}

/// Identifier round trip, dot-opened peculiar form.
pub proof fn lemma_dot_identifier_round_trip(s: Seq<char>)
    requires
        legal_dot_identifier(s),
    ensures
        spec_tokens(s, 0) == Ok::<Seq<(TokenM, int)>, (LexerError, int)>(
            seq![(TokenM::Ident(s), 0int)],
        ),
{
    reveal(spec_peculiar);
    lemma_scan_subsequent_all(s, 2, seq![s[0], s[1]]);
    assert(seq![s[0], s[1]] + s.subrange(2, s.len() as int) =~= s);
    assert(spec_next_token(s, 0) == NextM::TokM(TokenM::Ident(s), 0, s.len() as int));
    assert(spec_tokens(s, s.len() as int) == Ok::<Seq<(TokenM, int)>, (LexerError, int)>(
        Seq::empty(),
    ));
    assert(seq![(TokenM::Ident(s), 0int)] + Seq::<(TokenM, int)>::empty() =~= seq![
        (TokenM::Ident(s), 0int),
    ]);
}

/// Whitespace insensitivity, in the form the grammar admits: a run of
/// whitespace before any position changes neither the tokens nor their
/// values.
pub proof fn lemma_whitespace_run_transparent(s: Seq<char>, i: int, j: int)
    requires
        0 <= i <= j <= s.len(),
        forall|k: int| i <= k < j ==> spec_whitespace(#[trigger] s[k]),
    ensures
        spec_tokens(s, i) == spec_tokens(s, j),
    decreases j - i,
{
    if i < j {
        lemma_whitespace_transparent(s, i);
        lemma_whitespace_run_transparent(s, i + 1, j);
    }
}

} // verus!
