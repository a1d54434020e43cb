//! The lexer: turns a character sequence into located tokens.
//!
//! The input is held whole; a committed position and a peek cursor slide over
//! it.  Recognizers peek speculatively and either commit (`advance`) or roll
//! the cursor back (`reset`), so a failed attempt never consumes input.

use vstd::prelude::*;
use vstd::string::StrSliceExecFns;
use crate::located::loc_after;
use crate::located::Located;
use crate::located::Location;
use crate::located::move_location;
use crate::located::ToLocated;
use crate::token::Token;
use crate::grammar::all_dec_digits;
use crate::grammar::block_comment_end;
use crate::grammar::digits_end;
use crate::grammar::digits_val;
use crate::grammar::inf_seq;
use crate::grammar::lemma_digits_end_range;
use crate::grammar::line_comment_end;
use crate::grammar::nan_seq;
use crate::grammar::complex_matches;
use crate::grammar::prefix_exact;
use crate::grammar::prefix_radix;
use crate::grammar::real_matches;
use crate::grammar::real_m_reverse;
use crate::grammar::RealM;
use crate::grammar::spec_complex;
use crate::grammar::spec_prefix;
use crate::grammar::spec_real;
use crate::grammar::spec_unreal;
use crate::grammar::spec_next_token;
use crate::grammar::spec_tokens;
use crate::grammar::lemma_line_comment_end_range;
use crate::grammar::lemma_block_comment_end_range;
use crate::grammar::NextM;
use crate::grammar::lemma_spec_tokens_step;
use crate::grammar::spec_infnan;
use crate::grammar::spec_suffix;
use crate::grammar::scan_quoted;
use crate::grammar::scan_string;
use crate::grammar::scan_subsequent;
use crate::grammar::spec_peculiar;
use crate::grammar::token_matches;
use crate::grammar::PrimM;
use crate::grammar::Step;
use crate::grammar::TokenM;
use crate::error::LexerError;
use crate::token::Complex;
use crate::token::Primitive;
use crate::token::Real;
use vstd::string::StringExecFns;

verus! {

/// Whitespace: space, tab, line feed, carriage return.
pub open spec fn spec_whitespace(c: char) -> bool {
    c == ' ' || c == '\t' || c == '\n' || c == '\r'
}

/// Tells whether `c` is whitespace.
#[verifier::when_used_as_spec(spec_whitespace)]
pub fn is_whitespace(ch: char) -> (r: bool)
    ensures
        r == spec_whitespace(ch),
{
    match ch {
        ' ' | '\t' | '\n' | '\r' => true,
        _ => false,
    }
}

/// Characters that may open an ordinary identifier.
pub open spec fn spec_identifier_initial(c: char) -> bool {
    ('a' <= c && c <= 'z') || ('A' <= c && c <= 'Z') || c == '!' || c == '$' || c == '%'
        || c == '&' || c == '*' || c == '/' || c == ':' || c == '<' || c == '=' || c == '>'
        || c == '?' || c == '@' || c == '^' || c == '_' || c == '~'
}

/// Tells whether `c` may open an ordinary identifier.
#[verifier::when_used_as_spec(spec_identifier_initial)]
pub fn is_identifier_initial(c: char) -> (r: bool)
    ensures
        r == spec_identifier_initial(c),
{
    match c {
        'a'..='z' | 'A'..='Z' | '!' | '$' | '%' | '&' | '*' | '/' | ':' | '<' | '=' | '>' | '?'
            | '@' | '^' | '_' | '~' => true,
        _ => false,
    }
}

/// Delimiters end the tokens whose lexemes are not self-terminating.
pub open spec fn spec_delimiter(c: char) -> bool {
    spec_whitespace(c) || c == '(' || c == ')' || c == '"' || c == ';' || c == '|'
}

/// Tells whether `c` is a delimiter.
#[verifier::when_used_as_spec(spec_delimiter)]
pub fn is_delimiter(c: char) -> (r: bool)
    ensures
        r == spec_delimiter(c),
{
    match c {
        ' ' | '\t' | '\n' | '\r' | '(' | ')' | '"' | ';' | '|' => true,
        _ => false,
    }
}

/// Characters that may follow a sign at the start of a peculiar identifier.
pub open spec fn spec_sign_subsequent(c: char) -> bool {
    spec_identifier_initial(c) || c == '+' || c == '-' || c == '@'
}

/// Tells whether `c` may follow a sign at the start of a peculiar identifier.
#[verifier::when_used_as_spec(spec_sign_subsequent)]
pub fn is_sign_subsequent(c: char) -> (r: bool)
    ensures
        r == spec_sign_subsequent(c),
{
    is_identifier_initial(c) || c == '+' || c == '-' || c == '@'
}

/// Decimal digits.
pub open spec fn spec_dec_digit(c: char) -> bool {
    '0' <= c && c <= '9'
}

/// Characters that may continue an identifier.
pub open spec fn spec_subsequent(c: char) -> bool {
    spec_identifier_initial(c) || spec_dec_digit(c) || c == '+' || c == '-' || c == '.'
        || c == '@'
}

/// A numeric base.
#[derive(Debug, Copy, Clone, PartialEq, Eq, Structural)]
pub enum Radix {
    Binary,
    Octal,
    Decimal,
    Hexadecimal,
}

/// The base as a number.
pub open spec fn radix_val(r: Radix) -> int {
    match r {
        Radix::Binary => 2,
        Radix::Octal => 8,
        Radix::Decimal => 10,
        Radix::Hexadecimal => 16,
    }
}

/// The digits of base `r`: decimal digits up to the base, and the lower-case
/// letters `a` to `f` for base 16.
pub open spec fn spec_radix_digit(c: char, r: Radix) -> bool {
    match r {
        Radix::Binary => c == '0' || c == '1',
        Radix::Octal => '0' <= c && c <= '7',
        Radix::Decimal => '0' <= c && c <= '9',
        Radix::Hexadecimal => ('0' <= c && c <= '9') || ('a' <= c && c <= 'f'),
    }
}

/// Value of one digit character.
pub open spec fn spec_digit_val(c: char) -> int {
    if '0' <= c && c <= '9' {
        c as int - '0' as int
    } else if 'a' <= c && c <= 'f' {
        c as int - 'a' as int + 10
    } else {
        0
    }
}

impl Radix {
    /// The base named by `radix`, for the four supported bases.
    pub fn from(radix: usize) -> (r: Option<Radix>)
        ensures
            r == if radix == 2 {
                Some(Radix::Binary)
            } else if radix == 8 {
                Some(Radix::Octal)
            } else if radix == 10 {
                Some(Radix::Decimal)
            } else if radix == 16 {
                Some(Radix::Hexadecimal)
            } else {
                None::<Radix>
            },
    {
        match radix {
            2 => Some(Radix::Binary),
            8 => Some(Radix::Octal),
            10 => Some(Radix::Decimal),
            16 => Some(Radix::Hexadecimal),
            _ => None,
        }
    }

    /// Tells whether `ch` is a digit of this base.
    pub fn contains(&self, ch: char) -> (r: bool)
        ensures
            r == spec_radix_digit(ch, *self),
    {
        match self {
            Radix::Binary => '0' == ch || ch == '1',
            Radix::Octal => '0' <= ch && ch <= '7',
            Radix::Decimal => '0' <= ch && ch <= '9',
            Radix::Hexadecimal => '0' <= ch && ch <= '9' || 'a' <= ch && ch <= 'f',
        }
    }
}

/// The lexer: the input characters with a committed position, a speculative
/// peek cursor, and the locations both have reached.
pub struct Lexer {
    chars: Vec<char>,
    pos: usize,
    cursor: usize,
    advance_location: Location,
    peek_location: Location,
}

impl Lexer {
    /// The whole input.
    pub closed spec fn src(self) -> Seq<char> {
        self.chars@
    }

    /// Index of the next uncommitted character.
    pub closed spec fn spec_pos(self) -> int {
        self.pos as int
    }

    /// Index of the next character the peek cursor would yield.
    pub closed spec fn spec_cursor(self) -> int {
        self.cursor as int
    }

    /// The cursor never trails the committed position, never passes the end,
    /// and both locations are determined by the prefixes already read.
    pub closed spec fn wf(self) -> bool {
        &&& self.pos <= self.cursor <= self.chars@.len()
        &&& self.advance_location == loc_after(self.chars@.take(self.pos as int))
        &&& self.peek_location == loc_after(self.chars@.take(self.cursor as int))
    }

    /// The peek cursor stands at the committed position.
    pub closed spec fn synced(self) -> bool {
        self.cursor == self.pos
    }

    /// A lexer over the given characters, at the start of the input.
    pub fn new(char_stream: Vec<char>) -> (r: Lexer)
        ensures
            r.wf(),
            r.synced(),
            r.spec_pos() == 0,
            r.src() == char_stream@,
    {
        let l = Lexer {
            chars: char_stream,
            pos: 0,
            cursor: 0,
            advance_location: Location { row: 0, col: 0 },
            peek_location: Location { row: 0, col: 0 },
        };
        proof {
            assert(l.chars@.take(0) =~= Seq::<char>::empty());
        }
        l
    }

    /// Yields the character under the peek cursor together with the cursor's
    /// location, and slides the cursor one character forward.
    fn peek_with_location(&mut self) -> (r: (Option<char>, Location))
        requires
            old(self).wf(),
        ensures
            final(self).wf(),
            final(self).src() == old(self).src(),
            final(self).spec_pos() == old(self).spec_pos(),
            r.1 == loc_after(old(self).src().take(old(self).spec_cursor())),
            if old(self).spec_cursor() < old(self).src().len() {
                r.0 == Some(old(self).src()[old(self).spec_cursor()])
                    && final(self).spec_cursor() == old(self).spec_cursor() + 1
            } else {
                r.0 == None::<char> && final(self).spec_cursor() == old(self).spec_cursor()
            },
    {
        let location = self.peek_location;
        if self.cursor < self.chars.len() {
            let c = self.chars[self.cursor];
            self.cursor += 1;
            move_location(c, &mut self.peek_location);
            proof {
                let s = self.chars@;
                let i = self.cursor as int;
                assert(s.take(i).drop_last() =~= s.take(i - 1));
                assert(s.take(i).last() == s[i - 1]);
            }
            (Some(c), location)
        } else {
            (None, location)
        }
    }

    /// Yields the character under the peek cursor and slides the cursor.
    fn peek(&mut self) -> (r: Option<char>)
        requires
            old(self).wf(),
        ensures
            final(self).wf(),
            final(self).src() == old(self).src(),
            final(self).spec_pos() == old(self).spec_pos(),
            if old(self).spec_cursor() < old(self).src().len() {
                r == Some(old(self).src()[old(self).spec_cursor()])
                    && final(self).spec_cursor() == old(self).spec_cursor() + 1
            } else {
                r == None::<char> && final(self).spec_cursor() == old(self).spec_cursor()
            },
    {
        self.peek_with_location().0
    }

    /// Discards all speculative peeks: the cursor rejoins the committed
    /// position.
    fn reset(&mut self)
        requires
            old(self).wf(),
        ensures
            final(self).wf(),
            final(self).synced(),
            final(self).src() == old(self).src(),
            final(self).spec_pos() == old(self).spec_pos(),
    {
        self.cursor = self.pos;
        self.peek_location = self.advance_location;
    }

    /// Commits one character: the committed position moves over it and the
    /// peek cursor rejoins it.
    fn advance(&mut self) -> (r: Option<char>)
        requires
            old(self).wf(),
        ensures
            final(self).wf(),
            final(self).synced(),
            final(self).src() == old(self).src(),
            if old(self).spec_pos() < old(self).src().len() {
                r == Some(old(self).src()[old(self).spec_pos()])
                    && final(self).spec_pos() == old(self).spec_pos() + 1
            } else {
                r == None::<char> && final(self).spec_pos() == old(self).spec_pos()
            },
    {
        if self.pos < self.chars.len() {
            let c = self.chars[self.pos];
            self.pos += 1;
            move_location(c, &mut self.advance_location);
            self.cursor = self.pos;
            self.peek_location = self.advance_location;
            proof {
                let s = self.chars@;
                let i = self.pos as int;
                assert(s.take(i).drop_last() =~= s.take(i - 1));
                assert(s.take(i).last() == s[i - 1]);
            }
            Some(c)
        } else {
            self.cursor = self.pos;
            self.peek_location = self.advance_location;
            None
        }
    }

    /// Commits `n` characters, or all that remain if fewer are left.
    fn advance_n(&mut self, n: usize)
        requires
            old(self).wf(),
        ensures
            final(self).wf(),
            final(self).synced(),
            final(self).src() == old(self).src(),
            final(self).spec_pos() == vstd::math::min(
                old(self).spec_pos() + n,
                old(self).src().len() as int,
            ),
    {
        let ghost start = self.spec_pos();
        for k in 0..n
            invariant
                self.wf(),
                self.src() == old(self).src(),
                self.spec_pos() == vstd::math::min(start + k, self.src().len() as int),
        {
            self.advance();
        }
        self.reset();
    }

    /// Tells whether the characters under the peek cursor spell `text`; the
    /// cursor and the committed position stay put either way.
    fn has_specific_string(&mut self, text: &str) -> (r: bool)
        requires
            old(self).wf(),
        ensures
            *final(self) == *old(self),
            r == (old(self).spec_cursor() + text@.len() <= old(self).src().len()
                && old(self).src().subrange(
                    old(self).spec_cursor(),
                    old(self).spec_cursor() + text@.len(),
                ) == text@),
    {
        let n = text.unicode_len();
        let len = self.chars.len();
        let ghost s = self.src();
        let ghost c0 = self.spec_cursor();
        if n > len || self.cursor > len - n {
            proof {
                assert(c0 + n > s.len());
            }
            return false;
        }
        for j in 0..n
            invariant
                self.wf(),
                *self == *old(self),
                n == text@.len(),
                self.cursor + n <= len,
                len == self.src().len(),
                s == self.src(),
                c0 == self.spec_cursor(),
                forall|k: int| 0 <= k < j ==> s[c0 + k] == text@[k],
        {
            let cj = self.chars[self.cursor + j];
            if cj != text.get_char(j) {
                proof {
                    assert(s.subrange(c0, c0 + n)[j as int] != text@[j as int]);
                }
                return false;
            }
        }
        proof {
            assert(s.subrange(c0, c0 + n) =~= text@);
        }
        true
    }
}

/// Relies on String::push: appends one character to the string.
#[verifier::external_body]
fn push_char(s: &mut String, c: char)
    ensures
        final(s)@ == old(s)@.push(c),
{
    s.push(c);
}

/// Value of a digit character, matching `spec_digit_val`.
fn digit_value(c: char) -> (r: u32)
    ensures
        r == spec_digit_val(c),
        r <= 15,
{
    if '0' <= c && c <= '9' {
        (c as u32) - ('0' as u32)
    } else if 'a' <= c && c <= 'f' {
        (c as u32) - ('a' as u32) + 10
    } else {
        0
    }
}

/// The base as a number, matching `radix_val`.
fn radix_num(r: Radix) -> (v: u64)
    ensures
        v == radix_val(r),
        2 <= v <= 16,
{
    match r {
        Radix::Binary => 2,
        Radix::Octal => 8,
        Radix::Decimal => 10,
        Radix::Hexadecimal => 16,
    }
}

/// A digit string's value never falls below zero.
proof fn lemma_digits_val_nonneg(s: Seq<char>, b: int)
    requires
        b >= 0,
    ensures
        digits_val(s, b) >= 0,
    decreases s.len(),
{
    if s.len() > 0 {
        lemma_digits_val_nonneg(s.drop_last(), b);
        assert(digits_val(s.drop_last(), b) * b >= 0) by (nonlinear_arith)
            requires
                digits_val(s.drop_last(), b) >= 0,
                b >= 0,
        ;
    }
}

/// Dropping trailing digits never raises a digit string's value.
proof fn lemma_digits_val_take_le(s: Seq<char>, b: int, j: int)
    requires
        b >= 1,
        0 <= j <= s.len(),
    ensures
        digits_val(s.take(j), b) <= digits_val(s, b),
    decreases s.len(),
{
    if j < s.len() {
        lemma_digits_val_take_le(s.drop_last(), b, j);
        assert(s.drop_last().take(j) =~= s.take(j));
        lemma_digits_val_nonneg(s.drop_last(), b);
        assert(digits_val(s.drop_last(), b) * b >= digits_val(s.drop_last(), b))
            by (nonlinear_arith)
            requires
                digits_val(s.drop_last(), b) >= 0,
                b >= 1,
        ;
    } else {
        assert(s.take(j) =~= s);
    }
}

/// Value of a digit string, `None` when it exceeds the range of `u64`.
fn digits_to_u64(d: &Vec<char>, radix: Radix) -> (r: Option<u64>)
    ensures
        match r {
            Some(v) => v == digits_val(d@, radix_val(radix)),
            None => digits_val(d@, radix_val(radix)) > u64::MAX,
        },
{
    let b = radix_num(radix);
    let mut acc: u64 = 0;
    let n = d.len();
    for i in 0..n
        invariant
            n == d@.len(),
            2 <= b <= 16,
            b == radix_val(radix),
            acc == digits_val(d@.take(i as int), b as int),
    {
        let dv = digit_value(d[i]) as u64;
        proof {
            assert(d@.take(i + 1).drop_last() =~= d@.take(i as int));
            assert(d@.take(i + 1).last() == d@[i as int]);
        }
        proof {
            assert((acc as int) * (b as int) <= 0xFFFF_FFFF_FFFF_FFFF * 16) by (nonlinear_arith)
                requires
                    0 <= acc <= 0xFFFF_FFFF_FFFF_FFFF,
                    0 <= b <= 16,
            ;
        }
        let wide: u128 = (acc as u128) * (b as u128) + (dv as u128);
        if wide > u64::MAX as u128 {
            proof {
                lemma_digits_val_take_le(d@, b as int, i + 1);
            }
            return None;
        }
        acc = wide as u64;
    }
    proof {
        assert(d@.take(n as int) =~= d@);
    }
    Some(acc)
}

/// Value of a digit string, `None` when it exceeds the range of `i64`.
fn digits_to_i64(d: &Vec<char>, radix: Radix) -> (r: Option<i64>)
    ensures
        match r {
            Some(v) => v == digits_val(d@, radix_val(radix)) && v >= 0,
            None => digits_val(d@, radix_val(radix)) > i64::MAX,
        },
{
    match digits_to_u64(d, radix) {
        None => None,
        Some(v) => if v <= i64::MAX as u64 {
            Some(v as i64)
        } else {
            None
        },
    }
}

impl Lexer {
    /// Commits a string literal at the committed position and yields its
    /// token; escapes map as `scan_string` says.
    fn get_string(&mut self) -> (r: Result<Token, Located<LexerError>>)
        requires
            old(self).wf(),
            old(self).synced(),
            old(self).spec_pos() < old(self).src().len(),
            old(self).src()[old(self).spec_pos()] == '"',
        ensures
            final(self).wf(),
            final(self).src() == old(self).src(),
            final(self).spec_pos() >= old(self).spec_pos(),
            r is Ok ==> final(self).spec_pos() > old(self).spec_pos(),
            match scan_string(old(self).src(), old(self).spec_pos() + 1, Seq::empty()) {
                Step::Emit(content, e) => r matches Ok(t) && token_matches(
                    TokenM::Prim(PrimM::Str(content)),
                    t,
                ) && final(self).synced() && final(self).spec_pos() == e,
                Step::Fail(er, ep) => r matches Err(le) && le.data == er && le.location
                    == loc_after(old(self).src().take(ep)),
            },
    {
        let ghost s = self.src();
        let ghost start = self.spec_pos();
        self.advance();
        let mut lit = String::new();
        loop
            invariant
                self.wf(),
                self.synced(),
                self.src() == s,
                s == old(self).src(),
                start == old(self).spec_pos(),
                start + 1 <= self.spec_pos() <= s.len(),
                scan_string(s, start + 1, Seq::empty()) == scan_string(
                    s,
                    self.spec_pos(),
                    lit@,
                ),
            decreases s.len() - self.spec_pos(),
        {
            if self.pos >= self.chars.len() {
                return Err(LexerError::UnexpectedEnd.with_location(self.advance_location));
            }
            let c = self.chars[self.pos];
            self.advance();
            if c == '"' {
                return Ok(Token::Primitive(Primitive::String(lit)));
            } else if c == '\\' {
                if self.pos >= self.chars.len() {
                    return Err(LexerError::UnexpectedEnd.with_location(self.advance_location));
                }
                let e = self.chars[self.pos];
                self.advance();
                if e == 'a' {
                    push_char(&mut lit, '\u{7}');
                } else if e == 'b' {
                    push_char(&mut lit, '\u{8}');
                } else if e == 't' {
                    push_char(&mut lit, '\t');
                } else if e == 'n' {
                    push_char(&mut lit, '\n');
                } else if e == 'r' {
                    push_char(&mut lit, '\r');
                } else if e == '"' {
                    push_char(&mut lit, '"');
                } else if e == '\\' {
                    push_char(&mut lit, '\\');
                } else if e == '|' {
                    push_char(&mut lit, '|');
                } else if e == 'x' || e == ' ' {
                } else {
                    return Err(
                        LexerError::UnrecognizedToken.with_location(self.advance_location),
                    );
                }
            } else {
                push_char(&mut lit, c);
            }
        }
    }

    /// Commits a `|`-quoted identifier at the committed position and yields
    /// its token; empty content denotes the identifier `||`.
    fn get_quoted_identifier(&mut self) -> (r: Result<Token, Located<LexerError>>)
        requires
            old(self).wf(),
            old(self).synced(),
            old(self).spec_pos() < old(self).src().len(),
            old(self).src()[old(self).spec_pos()] == '|',
        ensures
            final(self).wf(),
            final(self).src() == old(self).src(),
            final(self).spec_pos() >= old(self).spec_pos(),
            r is Ok ==> final(self).spec_pos() > old(self).spec_pos(),
            match scan_quoted(old(self).src(), old(self).spec_pos() + 1, Seq::empty()) {
                Step::Emit(name, e) => r matches Ok(t) && token_matches(TokenM::Ident(name), t)
                    && final(self).synced() && final(self).spec_pos() == e,
                Step::Fail(er, ep) => r matches Err(le) && le.data == er && le.location
                    == loc_after(old(self).src().take(ep)),
            },
    {
        let ghost s = self.src();
        let ghost start = self.spec_pos();
        self.advance();
        let mut lit = String::new();
        loop
            invariant
                self.wf(),
                self.synced(),
                self.src() == s,
                s == old(self).src(),
                start == old(self).spec_pos(),
                start + 1 <= self.spec_pos() <= s.len(),
                scan_quoted(s, start + 1, Seq::empty()) == scan_quoted(
                    s,
                    self.spec_pos(),
                    lit@,
                ),
            decreases s.len() - self.spec_pos(),
        {
            if self.pos >= self.chars.len() {
                return Err(LexerError::UnexpectedEnd.with_location(self.advance_location));
            }
            let c = self.chars[self.pos];
            self.advance();
            if c == '|' {
                if lit.as_str().is_empty() {
                    let bars = String::from_str("||");
                    proof {
                        reveal_strlit("||");
                        assert(bars@ =~= seq!['|', '|']);
                    }
                    return Ok(Token::Identifier(bars));
                }
                return Ok(Token::Identifier(lit));
            }
            push_char(&mut lit, c);
        }
    }

    /// Commits the identifier body at the committed position into
    /// `identifier_string`, stopping at a delimiter or the end of input.
    fn get_subsequent(&mut self, identifier_string: &mut String) -> (r: Result<
        (),
        Located<LexerError>,
    >)
        requires
            old(self).wf(),
            old(self).synced(),
        ensures
            final(self).wf(),
            final(self).src() == old(self).src(),
            final(self).spec_pos() >= old(self).spec_pos(),
            match scan_subsequent(old(self).src(), old(self).spec_pos(), old(identifier_string)@) {
                Step::Emit(name, e) => !(r is Err) && final(identifier_string)@ == name && final(self).synced() && final(self).spec_pos() == e,
                Step::Fail(er, ep) => r matches Err(le) && le.data == er && le.location
                    == loc_after(old(self).src().take(ep)),
            },
    {
        let ghost s = self.src();
        let ghost start = self.spec_pos();
        let ghost acc0 = identifier_string@;
        loop
            invariant
                self.wf(),
                self.synced(),
                self.src() == s,
                s == old(self).src(),
                start == old(self).spec_pos(),
                acc0 == old(identifier_string)@,
                0 <= start <= self.spec_pos() <= s.len(),
                scan_subsequent(s, start, acc0) == scan_subsequent(
                    s,
                    self.spec_pos(),
                    identifier_string@,
                ),
            decreases s.len() - self.spec_pos(),
        {
            if self.pos >= self.chars.len() {
                return Ok(());
            }
            let c = self.chars[self.pos];
            if is_identifier_initial(c) || ('0' <= c && c <= '9') || c == '+' || c == '-' || c
                == '.' || c == '@' {
                push_char(identifier_string, c);
                self.advance();
            } else if is_delimiter(c) {
                return Ok(());
            } else {
                return Err(LexerError::UnrecognizedToken.with_location(self.advance_location));
            }
        }
    }

    /// Commits an ordinary identifier at the committed position and yields
    /// its token.
    fn get_normal_identifier(&mut self) -> (r: Result<Token, Located<LexerError>>)
        requires
            old(self).wf(),
            old(self).synced(),
            old(self).spec_pos() < old(self).src().len(),
            spec_identifier_initial(old(self).src()[old(self).spec_pos()]),
        ensures
            final(self).wf(),
            final(self).src() == old(self).src(),
            final(self).spec_pos() >= old(self).spec_pos(),
            r is Ok ==> final(self).spec_pos() > old(self).spec_pos(),
            match scan_subsequent(
                old(self).src(),
                old(self).spec_pos() + 1,
                seq![old(self).src()[old(self).spec_pos()]],
            ) {
                Step::Emit(name, e) => r matches Ok(t) && token_matches(TokenM::Ident(name), t)
                    && final(self).synced() && final(self).spec_pos() == e,
                Step::Fail(er, ep) => r matches Err(le) && le.data == er && le.location
                    == loc_after(old(self).src().take(ep)),
            },
    {
        let c = self.chars[self.pos];
        self.advance();
        let mut ident = String::new();
        push_char(&mut ident, c);
        proof {
            assert(ident@ =~= seq![c]);
        }
        self.get_subsequent(&mut ident)?;
        Ok(Token::Identifier(ident))
    }

    /// Commits a peculiar identifier at the committed position and yields
    /// its token.
    fn get_percular_identifier(&mut self) -> (r: Result<Token, Located<LexerError>>)
        requires
            old(self).wf(),
            old(self).synced(),
            old(self).spec_pos() < old(self).src().len(),
            old(self).src()[old(self).spec_pos()] == '+' || old(self).src()[old(self).spec_pos()]
                == '-' || old(self).src()[old(self).spec_pos()] == '.',
        ensures
            final(self).wf(),
            final(self).src() == old(self).src(),
            final(self).spec_pos() >= old(self).spec_pos(),
            r is Ok ==> final(self).spec_pos() > old(self).spec_pos(),
            match spec_peculiar(old(self).src(), old(self).spec_pos()) {
                Step::Emit(name, e) => r matches Ok(t) && token_matches(TokenM::Ident(name), t)
                    && final(self).synced() && final(self).spec_pos() == e,
                Step::Fail(er, ep) => r matches Err(le) && le.data == er && le.location
                    == loc_after(old(self).src().take(ep)),
            },
    {
        proof {
            reveal(crate::grammar::spec_peculiar);
        }
        let ghost s = self.src();
        let ghost i = self.spec_pos();
        let c1 = self.chars[self.pos];
        self.advance();
        let mut ident = String::new();
        push_char(&mut ident, c1);
        if c1 == '+' || c1 == '-' {
            if self.pos >= self.chars.len() || is_delimiter(self.chars[self.pos]) {
                proof {
                    assert(ident@ =~= seq![c1]);
                }
                return Ok(Token::Identifier(ident));
            }
            let nc = self.chars[self.pos];
            if is_sign_subsequent(nc) {
                push_char(&mut ident, nc);
                self.advance();
                proof {
                    assert(ident@ =~= seq![c1, nc]);
                }
                self.get_subsequent(&mut ident)?;
                Ok(Token::Identifier(ident))
            } else if nc == '.' {
                push_char(&mut ident, '.');
                self.advance();
                if self.pos >= self.chars.len() {
                    return Err(LexerError::UnexpectedEnd.with_location(self.advance_location));
                }
                let c3 = self.chars[self.pos];
                if is_sign_subsequent(c3) || c3 == '.' {
                    push_char(&mut ident, c3);
                    self.advance();
                    proof {
                        assert(ident@ =~= seq![c1, '.', c3]);
                    }
                    self.get_subsequent(&mut ident)?;
                    Ok(Token::Identifier(ident))
                } else {
                    Err(LexerError::UnrecognizedToken.with_location(self.advance_location))
                }
            } else {
                Err(LexerError::UnrecognizedToken.with_location(self.advance_location))
            }
        } else {
            if self.pos >= self.chars.len() {
                return Err(LexerError::UnexpectedEnd.with_location(self.advance_location));
            }
            let nc = self.chars[self.pos];
            if is_sign_subsequent(nc) || nc == '.' {
                push_char(&mut ident, nc);
                self.advance();
                proof {
                    assert(ident@ =~= seq![c1, nc]);
                }
                self.get_subsequent(&mut ident)?;
                Ok(Token::Identifier(ident))
            } else {
                Err(LexerError::UnrecognizedToken.with_location(self.advance_location))
            }
        }
    }
}

/// Negating the executable real of a model negates the model: needed where a
/// leading minus sign is applied to an unsigned real.
proof fn lemma_real_matches_reverse(m: RealM, r: Real)
    requires
        real_matches(m, r),
        m matches RealM::Int(v) ==> v >= 0,
        m matches RealM::Rat(n, d) ==> n >= 0,
    ensures
        real_matches(real_m_reverse(m), r.spec_reverse()),
{
}

impl Lexer {
    /// Commits an unsigned real at the committed position under base
    /// `radix`.  The exactness flag is carried but, as yet, unused.
    fn get_unreal(&mut self, radix: Radix, _exactness: bool) -> (r: Result<
        Real,
        Located<LexerError>,
    >)
        requires
            old(self).wf(),
            old(self).synced(),
        ensures
            final(self).wf(),
            final(self).src() == old(self).src(),
            final(self).spec_pos() >= old(self).spec_pos(),
            r is Ok ==> final(self).spec_pos() > old(self).spec_pos(),
            match spec_unreal(old(self).src(), old(self).spec_pos(), radix) {
                Step::Emit(m, e) => r matches Ok(v) && real_matches(m, v) && final(self).synced() && final(self).spec_pos() == e,
                Step::Fail(er, ep) => r matches Err(le) && le.data == er && le.location
                    == loc_after(old(self).src().take(ep)),
            },
    {
        proof {
            reveal(crate::grammar::spec_unreal);
            reveal(crate::grammar::spec_suffix);
        }
        let ghost s = self.src();
        let ghost i = self.spec_pos();
        let loc0 = self.advance_location;
        if self.pos >= self.chars.len() {
            return Err(LexerError::UnexpectedEnd.with_location(loc0));
        }
        let c0 = self.chars[self.pos];
        if radix.contains(c0) {
            let n1 = self.get_digit(radix);
            let ghost j = self.spec_pos();
            proof {
                lemma_digits_end_range(s, i, radix);
                lemma_digits_end_range(s, i + 1, radix);
            }
            if self.pos >= self.chars.len() || is_delimiter(self.chars[self.pos])
                || self.chars[self.pos] == '@' || self.chars[self.pos] == 'i'
                || self.chars[self.pos] == '+' || self.chars[self.pos] == '-' {
                match digits_to_i64(&n1, radix) {
                    Some(v) => Ok(Real::Integer(v)),
                    None => Err(LexerError::UnrecognizedToken.with_location(loc0)),
                }
            } else if self.chars[self.pos] == '/' {
                self.advance();
                let n2 = self.get_digit(radix);
                proof {
                    lemma_digits_end_range(s, j + 1, radix);
                }
                if n2.len() == 0 {
                    return Err(
                        LexerError::UnrecognizedToken.with_location(self.advance_location),
                    );
                }
                let num = digits_to_i64(&n1, radix);
                let den = digits_to_u64(&n2, radix);
                match (num, den) {
                    (Some(a), Some(b)) => if b != 0 {
                        Ok(Real::Ration(a, b))
                    } else {
                        Err(LexerError::UnrecognizedToken.with_location(loc0))
                    },
                    _ => Err(LexerError::UnrecognizedToken.with_location(loc0)),
                }
            } else if self.chars[self.pos] == '.' {
                self.advance();
                let n2 = self.get_digit(radix);
                proof {
                    lemma_digits_end_range(s, j + 1, radix);
                }
                let sfx = match self.get_suffix() {
                    Ok(p) => p,
                    Err(e) => {
                        return Err(e);
                    },
                };
                match crate::float::float_bits(&n1, &n2, sfx.0, &sfx.1) {
                    Some(b) => Ok(Real::Float(b)),
                    None => Err(LexerError::UnrecognizedToken.with_location(loc0)),
                }
            } else if self.chars[self.pos] == 'e' {
                let sfx = match self.get_suffix() {
                    Ok(p) => p,
                    Err(e) => {
                        return Err(e);
                    },
                };
                let empty_frac: Vec<char> = Vec::new();
                match crate::float::float_bits(&n1, &empty_frac, sfx.0, &sfx.1) {
                    Some(b) => Ok(Real::Float(b)),
                    None => Err(LexerError::UnrecognizedToken.with_location(loc0)),
                }
            } else {
                Err(LexerError::UnrecognizedToken.with_location(loc0))
            }
        } else if c0 == '.' {
            self.advance();
            let n2 = self.get_digit(radix);
            proof {
                lemma_digits_end_range(s, i + 1, radix);
            }
            if n2.len() == 0 {
                return Err(LexerError::UnrecognizedToken.with_location(self.advance_location));
            }
            let sfx = match self.get_suffix() {
                Ok(p) => p,
                Err(e) => {
                    return Err(e);
                },
            };
            let empty_int: Vec<char> = Vec::new();
            match crate::float::float_bits(&empty_int, &n2, sfx.0, &sfx.1) {
                Some(b) => Ok(Real::Float(b)),
                None => Err(LexerError::UnrecognizedToken.with_location(loc0)),
            }
        } else {
            Err(LexerError::UnrecognizedToken.with_location(loc0))
        }
    }

    /// Commits a signed or unsigned real at the committed position under
    /// base `radix`.
    fn get_real(&mut self, radix: Radix, exactness: bool) -> (r: Result<
        Real,
        Located<LexerError>,
    >)
        requires
            old(self).wf(),
            old(self).synced(),
        ensures
            final(self).wf(),
            final(self).src() == old(self).src(),
            final(self).spec_pos() >= old(self).spec_pos(),
            r is Ok ==> final(self).spec_pos() > old(self).spec_pos(),
            match spec_real(old(self).src(), old(self).spec_pos(), radix) {
                Step::Emit(m, e) => r matches Ok(v) && real_matches(m, v) && final(self).synced() && final(self).spec_pos() == e,
                Step::Fail(er, ep) => r matches Err(le) && le.data == er && le.location
                    == loc_after(old(self).src().take(ep)),
            },
    {
        proof {
            reveal(crate::grammar::spec_real);
            reveal(crate::grammar::spec_unreal);
        }
        let ghost s = self.src();
        let ghost i = self.spec_pos();
        if self.pos < self.chars.len() && self.pos + 1 < self.chars.len() && (self.chars[self.pos]
            == '+' || self.chars[self.pos] == '-') && (self.chars[self.pos + 1] == 'i'
            || self.chars[self.pos + 1] == 'n') {
            self.get_infnan()
        } else if self.pos < self.chars.len() && self.chars[self.pos] == '+' {
            self.advance();
            self.get_unreal(radix, exactness)
        } else if self.pos < self.chars.len() && self.chars[self.pos] == '-' {
            self.advance();
            match self.get_unreal(radix, exactness) {
                Ok(v) => {
                    proof {
                        lemma_digits_end_range(s, i + 1, radix);
                        if digits_end(s, i + 1, radix) + 1 <= s.len() {
                            lemma_digits_end_range(s, digits_end(s, i + 1, radix) + 1, radix);
                        }
                        match spec_unreal(s, i + 1, radix) {
                            Step::Emit(m, _) => {
                                match m {
                                    RealM::Int(_) | RealM::Rat(_, _) => {
                                        lemma_digits_val_nonneg(
                                            s.subrange(i + 1, digits_end(s, i + 1, radix)),
                                            radix_val(radix),
                                        );
                                        if digits_end(s, i + 1, radix) + 1 <= s.len() {
                                            lemma_digits_val_nonneg(
                                                s.subrange(
                                                    digits_end(s, i + 1, radix) + 1,
                                                    digits_end(
                                                        s,
                                                        digits_end(s, i + 1, radix) + 1,
                                                        radix,
                                                    ),
                                                ),
                                                radix_val(radix),
                                            );
                                        }
                                    },
                                    _ => {},
                                }
                                lemma_real_matches_reverse(m, v);
                            },
                            Step::Fail(_, _) => {},
                        }
                    }
                    Ok(v.reverse())
                },
                Err(e) => Err(e),
            }
        } else {
            self.get_unreal(radix, exactness)
        }
    }

    /// Commits a numeric literal at the committed position under base
    /// `radix`, in any of its twelve shapes.
    #[verifier::rlimit(60)]
    fn get_complex(&mut self, radix: Radix, exactness: bool) -> (r: Result<
        Complex,
        Located<LexerError>,
    >)
        requires
            old(self).wf(),
            old(self).synced(),
        ensures
            final(self).wf(),
            final(self).src() == old(self).src(),
            final(self).spec_pos() >= old(self).spec_pos(),
            r is Ok ==> final(self).spec_pos() > old(self).spec_pos(),
            match spec_complex(old(self).src(), old(self).spec_pos(), radix) {
                Step::Emit(m, e) => r matches Ok(v) && complex_matches(m, v) && final(self).synced() && final(self).spec_pos() == e,
                Step::Fail(er, ep) => r matches Err(le) && le.data == er && le.location
                    == loc_after(old(self).src().take(ep)),
            },
    {
        proof {
            reveal(crate::grammar::spec_complex);
            reveal(crate::grammar::spec_infnan);
        }
        let ghost s = self.src();
        let ghost i = self.spec_pos();
        if self.pos < self.chars.len() && self.pos + 1 < self.chars.len() && (self.chars[self.pos]
            == '+' || self.chars[self.pos] == '-') && self.chars[self.pos + 1] == 'i' && (self.pos
            + 2 >= self.chars.len() || is_delimiter(self.chars[self.pos + 2])) {
            let im = self.get_single_i();
            return Ok(Complex::Imaginary(im));
        }
        let first_signed = self.pos < self.chars.len() && (self.chars[self.pos] == '+'
            || self.chars[self.pos] == '-');
        let r1 = match self.get_real(radix, exactness) {
            Ok(v) => v,
            Err(e) => {
                return Err(e);
            },
        };
        let ghost j = self.spec_pos();
        if self.pos >= self.chars.len() || is_delimiter(self.chars[self.pos]) {
            return Ok(Complex::Real(r1));
        }
        let cj = self.chars[self.pos];
        if cj == '@' {
            self.advance();
            let r2 = match self.get_real(radix, exactness) {
                Ok(v) => v,
                Err(e) => {
                    return Err(e);
                },
            };
            Ok(Complex::Complex(r1, r2))
        } else if cj == '+' || cj == '-' {
            self.peek();
            proof {
                reveal_strlit("inf.0");
                reveal_strlit("nan.0");
                assert("inf.0"@ =~= inf_seq());
                assert("nan.0"@ =~= nan_seq());
            }
            let has_inf = self.has_specific_string("inf.0");
            let has_nan = self.has_specific_string("nan.0");
            self.reset();
            if has_inf || has_nan {
                let r2 = match self.get_infnan() {
                    Ok(v) => v,
                    Err(e) => {
                        return Err(e);
                    },
                };
                if self.pos < self.chars.len() && self.chars[self.pos] == 'i' {
                    self.advance();
                    Ok(Complex::Complex(r1, r2))
                } else if self.pos >= self.chars.len() {
                    Err(LexerError::UnexpectedEnd.with_location(self.advance_location))
                } else {
                    Err(LexerError::UnrecognizedToken.with_location(self.advance_location))
                }
            } else if self.pos + 1 < self.chars.len() && self.chars[self.pos + 1] == 'i' {
                let im = self.get_single_i();
                Ok(Complex::Complex(r1, im))
            } else {
                let r2 = match self.get_real(radix, exactness) {
                    Ok(v) => v,
                    Err(e) => {
                        return Err(e);
                    },
                };
                if self.pos < self.chars.len() && self.chars[self.pos] == 'i' {
                    self.advance();
                    Ok(Complex::Complex(r1, r2))
                } else if self.pos >= self.chars.len() {
                    Err(LexerError::UnexpectedEnd.with_location(self.advance_location))
                } else {
                    Err(LexerError::UnrecognizedToken.with_location(self.advance_location))
                }
            }
        } else if cj == 'i' {
            if first_signed {
                self.advance();
                Ok(Complex::Imaginary(r1))
            } else {
                Err(LexerError::UnrecognizedToken.with_location(self.advance_location))
            }
        } else {
            Err(LexerError::UnrecognizedToken.with_location(self.advance_location))
        }
    }

    /// Commits a `#` number prefix at the committed position: exactness and
    /// base letters, each class at most once, in either order.
    fn get_complex_prefix(&mut self) -> (r: Result<(Radix, bool), Located<LexerError>>)
        requires
            old(self).wf(),
            old(self).synced(),
            old(self).spec_pos() < old(self).src().len(),
            old(self).src()[old(self).spec_pos()] == '#',
        ensures
            final(self).wf(),
            final(self).src() == old(self).src(),
            final(self).spec_pos() >= old(self).spec_pos(),
            match spec_prefix(old(self).src(), old(self).spec_pos()) {
                Step::Emit(m, e) => r matches Ok(v) && v == m && final(self).synced() && final(self).spec_pos() == e,
                Step::Fail(er, ep) => r matches Err(le) && le.data == er && le.location
                    == loc_after(old(self).src().take(ep)),
            },
    {
        proof {
            reveal(crate::grammar::spec_prefix);
        }
        self.advance();
        if self.pos >= self.chars.len() {
            return Err(LexerError::UnexpectedEnd.with_location(self.advance_location));
        }
        let c1 = self.chars[self.pos];
        self.advance();
        if self.pos < self.chars.len() && self.chars[self.pos] == '#' {
            self.advance();
            if self.pos >= self.chars.len() {
                return Err(LexerError::UnexpectedEnd.with_location(self.advance_location));
            }
            let c2 = self.chars[self.pos];
            self.advance();
            if (c2 == 'e' || c2 == 'i') && (c1 == 'e' || c1 == 'i') {
                Err(LexerError::UnrecognizedToken.with_location(self.advance_location))
            } else if (c2 == 'b' || c2 == 'o' || c2 == 'd' || c2 == 'x') && (c1 == 'b' || c1
                == 'o' || c1 == 'd' || c1 == 'x') {
                Err(LexerError::UnrecognizedToken.with_location(self.advance_location))
            } else if c2 == 'e' || c2 == 'i' || c2 == 'b' || c2 == 'o' || c2 == 'd' || c2 == 'x' {
                Ok((exec_prefix_radix(c1, c2), exec_prefix_exact(c1, c2)))
            } else {
                Err(LexerError::UnrecognizedToken.with_location(self.advance_location))
            }
        } else {
            Ok((exec_prefix_radix(c1, ' '), exec_prefix_exact(c1, ' ')))
        }
    }
}

/// The base named by either prefix letter, matching `prefix_radix`.
fn exec_prefix_radix(c1: char, c2: char) -> (r: Radix)
    ensures
        r == prefix_radix(c1, c2),
{
    if c1 == 'b' || c2 == 'b' {
        Radix::Binary
    } else if c1 == 'o' || c2 == 'o' {
        Radix::Octal
    } else if c1 == 'x' || c2 == 'x' {
        Radix::Hexadecimal
    } else {
        Radix::Decimal
    }
}

/// The exactness named by either prefix letter, matching `prefix_exact`.
fn exec_prefix_exact(c1: char, c2: char) -> (r: bool)
    ensures
        r == prefix_exact(c1, c2),
{
    !(c1 == 'i' || c2 == 'i')
}

impl Lexer {
    /// Commits the maximal run of base-`radix` digits at the committed
    /// position and yields its characters.
    fn get_digit(&mut self, radix: Radix) -> (r: Vec<char>)
        requires
            old(self).wf(),
            old(self).synced(),
        ensures
            final(self).wf(),
            final(self).synced(),
            final(self).src() == old(self).src(),
            final(self).spec_pos() == digits_end(old(self).src(), old(self).spec_pos(), radix),
            r@ == old(self).src().subrange(old(self).spec_pos(), final(self).spec_pos()),
    {
        let mut res: Vec<char> = Vec::new();
        let ghost s = self.src();
        let ghost start = self.spec_pos();
        while self.pos < self.chars.len() && radix.contains(self.chars[self.pos])
            invariant
                self.wf(),
                self.synced(),
                self.src() == s,
                s == old(self).src(),
                start == old(self).spec_pos(),
                0 <= start <= self.spec_pos() <= s.len(),
                res@ == s.subrange(start, self.spec_pos()),
                digits_end(s, start, radix) == digits_end(s, self.spec_pos(), radix),
            decreases s.len() - self.spec_pos(),
        {
            let c = self.chars[self.pos];
            res.push(c);
            self.advance();
            proof {
                let p = self.spec_pos();
                assert(s.subrange(start, p) =~= s.subrange(start, p - 1).push(s[p - 1]));
            }
        }
        res
    }

    /// Commits an exponent suffix at the committed position: nothing, or
    /// `e`, an optional sign, and at least one decimal digit, yielded as the
    /// sign and the digits.
    fn get_suffix(&mut self) -> (r: Result<(bool, Vec<char>), Located<LexerError>>)
        requires
            old(self).wf(),
            old(self).synced(),
        ensures
            final(self).wf(),
            final(self).src() == old(self).src(),
            final(self).spec_pos() >= old(self).spec_pos(),
            match spec_suffix(old(self).src(), old(self).spec_pos()) {
                Step::Emit(_, e) => r matches Ok(p) && final(self).synced() && final(self).spec_pos() == e && all_dec_digits(p.1@),
                Step::Fail(er, ep) => r matches Err(le) && le.data == er && le.location
                    == loc_after(old(self).src().take(ep)),
            },
    {
        proof {
            reveal(crate::grammar::spec_suffix);
        }
        let ghost s = self.src();
        let ghost i = self.spec_pos();
        if self.pos >= self.chars.len() || self.chars[self.pos] != 'e' {
            return Ok((false, Vec::new()));
        }
        self.advance();
        let mut neg = false;
        if self.pos < self.chars.len() && (self.chars[self.pos] == '+' || self.chars[self.pos]
            == '-') {
            neg = self.chars[self.pos] == '-';
            self.advance();
        }
        let ghost j = self.spec_pos();
        let digits = self.get_digit(Radix::Decimal);
        proof {
            lemma_digits_end_range(s, j, Radix::Decimal);
        }
        if digits.len() == 0 {
            return Err(LexerError::UnrecognizedToken.with_location(self.advance_location));
        }
        proof {
            assert forall|k: int| 0 <= k < digits@.len() implies spec_dec_digit(
                digits@[k],
            ) by {
                assert(digits@[k] == s[j + k]);
            }
        }
        Ok((neg, digits))
    }

    /// Commits a signed infinity or NaN at the committed position.
    fn get_infnan(&mut self) -> (r: Result<Real, Located<LexerError>>)
        requires
            old(self).wf(),
            old(self).synced(),
            old(self).spec_pos() < old(self).src().len(),
            old(self).src()[old(self).spec_pos()] == '+' || old(self).src()[old(self).spec_pos()] == '-',
        ensures
            final(self).wf(),
            final(self).src() == old(self).src(),
            final(self).spec_pos() >= old(self).spec_pos(),
            r is Ok ==> final(self).spec_pos() > old(self).spec_pos(),
            match spec_infnan(old(self).src(), old(self).spec_pos()) {
                Step::Emit(m, e) => r matches Ok(v) && real_matches(m, v) && final(self).synced() && final(self).spec_pos() == e,
                Step::Fail(er, ep) => r matches Err(le) && le.data == er && le.location
                    == loc_after(old(self).src().take(ep)),
            },
    {
        proof {
            reveal(crate::grammar::spec_infnan);
        }
        let ghost s = self.src();
        let ghost i = self.spec_pos();
        let sign = self.chars[self.pos];
        self.advance();
        proof {
            reveal_strlit("inf.0");
            reveal_strlit("nan.0");
            assert("inf.0"@ =~= inf_seq());
            assert("nan.0"@ =~= nan_seq());
        }
        if self.has_specific_string("inf.0") {
            self.advance_n(5);
            Ok(if sign == '+' {
                Real::PosInf
            } else {
                Real::NegInf
            })
        } else if self.has_specific_string("nan.0") {
            self.advance_n(5);
            Ok(if sign == '+' {
                Real::PosNan
            } else {
                Real::NegNan
            })
        } else {
            Err(LexerError::UnrecognizedToken.with_location(self.advance_location))
        }
    }

    /// Commits a bare `+i` or `-i` at the committed position.
    fn get_single_i(&mut self) -> (r: Real)
        requires
            old(self).wf(),
            old(self).synced(),
            old(self).spec_pos() + 2 <= old(self).src().len(),
            old(self).src()[old(self).spec_pos()] == '+' || old(self).src()[old(self).spec_pos()] == '-',
        ensures
            final(self).wf(),
            final(self).synced(),
            final(self).src() == old(self).src(),
            final(self).spec_pos() == old(self).spec_pos() + 2,
            r == Real::Integer(
                if old(self).src()[old(self).spec_pos()] == '+' {
                    1i64
                } else {
                    -1i64
                },
            ),
    {
        let sign = self.chars[self.pos];
        self.advance();
        self.advance();
        if sign == '+' {
            Real::Integer(1)
        } else {
            Real::Integer(-1)
        }
    }

    /// Commits a line comment at the committed position: everything up to
    /// and including the first line break, or the rest of the input.
    fn skip_line_comment(&mut self)
        requires
            old(self).wf(),
            old(self).synced(),
            old(self).spec_pos() < old(self).src().len(),
            old(self).src()[old(self).spec_pos()] == ';',
        ensures
            final(self).wf(),
            final(self).synced(),
            final(self).src() == old(self).src(),
            final(self).spec_pos() == line_comment_end(
                old(self).src(),
                old(self).spec_pos() + 1,
            ),
    {
        let ghost s = self.src();
        let ghost start = self.spec_pos();
        self.advance();
        loop
            invariant_except_break
                self.wf(),
                self.synced(),
                self.src() == s,
                start + 1 <= self.spec_pos() <= s.len(),
                line_comment_end(s, start + 1) == line_comment_end(s, self.spec_pos()),
            ensures
                self.wf(),
                self.synced(),
                self.src() == s,
                self.spec_pos() == line_comment_end(s, start + 1),
            decreases s.len() - self.spec_pos(),
        {
            if self.pos >= self.chars.len() {
                break;
            }
            let c = self.chars[self.pos];
            self.advance();
            if c == '\n' || c == '\r' {
                break;
            }
        }
    }

    /// Commits a block comment at the committed position, matching `|#`
    /// against the innermost `#|`; an unterminated comment runs to the end
    /// of the input.
    fn skip_block_comment(&mut self)
        requires
            old(self).wf(),
            old(self).synced(),
            old(self).spec_pos() + 2 <= old(self).src().len(),
            old(self).src()[old(self).spec_pos()] == '#',
            old(self).src()[old(self).spec_pos() + 1] == '|',
        ensures
            final(self).wf(),
            final(self).synced(),
            final(self).src() == old(self).src(),
            final(self).spec_pos() == block_comment_end(
                old(self).src(),
                old(self).spec_pos() + 2,
                1,
            ),
    {
        let ghost s = self.src();
        let ghost start = self.spec_pos();
        self.advance();
        self.advance();
        let mut depth: usize = 1;
        loop
            invariant_except_break
                self.wf(),
                self.synced(),
                self.src() == s,
                start + 2 <= self.spec_pos() <= s.len(),
                1 <= depth <= self.spec_pos(),
                block_comment_end(s, start + 2, 1) == block_comment_end(
                    s,
                    self.spec_pos(),
                    depth as int,
                ),
            ensures
                self.wf(),
                self.synced(),
                self.src() == s,
                self.spec_pos() == block_comment_end(s, start + 2, 1),
            decreases s.len() - self.spec_pos(),
        {
            if self.pos >= self.chars.len() {
                break;
            }
            let c = self.chars[self.pos];
            if c == '|' && self.pos + 1 < self.chars.len() && self.chars[self.pos + 1] == '#' {
                self.advance();
                self.advance();
                if depth <= 1 {
                    break;
                }
                depth = depth - 1;
            } else if c == '#' && self.pos + 1 < self.chars.len() && self.chars[self.pos + 1]
                == '|' {
                self.advance();
                self.advance();
                depth = depth + 1;
            } else {
                self.advance();
            }
        }
    }
}

impl Lexer {
    /// Reads the token that starts at the committed position, which holds
    /// neither trivia nor the end of input.
    #[verifier::rlimit(100)]
    fn get_token_here(&mut self) -> (r: Result<
        Option<Located<Token>>,
        Located<LexerError>,
    >)
        requires
            old(self).wf(),
            old(self).synced(),
            old(self).spec_pos() < old(self).src().len(),
            !spec_whitespace(old(self).src()[old(self).spec_pos()]),
            old(self).src()[old(self).spec_pos()] != ';',
            !(old(self).src()[old(self).spec_pos()] == '#' && old(self).spec_pos() + 1 < old(
                self,
            ).src().len() && old(self).src()[old(self).spec_pos() + 1] == '|'),
        ensures
            final(self).wf(),
            final(self).src() == old(self).src(),
            final(self).spec_pos() >= old(self).spec_pos(),
            match spec_next_token(old(self).src(), old(self).spec_pos()) {
                NextM::EndM => true,
                NextM::TokM(tm, st, e) => r matches Ok(o) && o matches Some(lt)
                    && token_matches(tm, lt.data)
                    && lt.location == loc_after(old(self).src().take(st))
                    && final(self).synced() && final(self).spec_pos() == e
                    && e > old(self).spec_pos(),
                NextM::FailM(er, ep) => r matches Err(le) && le.data == er && le.location
                    == loc_after(old(self).src().take(ep)),
            },
    {
        let ghost s = self.src();
        let ghost p = self.spec_pos();
        let len = self.chars.len();
        {
            let location = self.advance_location;
            let c = self.chars[self.pos];
            if c == '(' {
                self.advance();
                return Ok(Some(Token::LeftParen.with_location(location)));
            } else if c == ')' {
                self.advance();
                return Ok(Some(Token::RightParen.with_location(location)));
            } else if c == '\'' {
                self.advance();
                return Ok(Some(Token::Quote.with_location(location)));
            } else if c == '`' {
                self.advance();
                return Ok(Some(Token::Quasiquote.with_location(location)));
            } else if c == ',' {
                self.advance();
                if self.pos < len && self.chars[self.pos] == '@' {
                    self.advance();
                    return Ok(Some(Token::UnquoteSplicing.with_location(location)));
                }
                return Ok(Some(Token::Unquote.with_location(location)));
            } else if c == '#' {
                return self.get_hash_token();
            } else if c == '.' {
                return self.get_dot_token();
            } else if c == '+' || c == '-' {
                return self.get_sign_token();
            } else if '0' <= c && c <= '9' {
                let cm = match self.get_complex(Radix::Decimal, true) {
                    Ok(v) => v,
                    Err(e) => {
                        return Err(e);
                    },
                };
                return Ok(Some(Token::Primitive(Primitive::Complex(cm)).with_location(location)));
            } else if c == '"' {
                let t = match self.get_string() {
                    Ok(v) => v,
                    Err(e) => {
                        return Err(e);
                    },
                };
                return Ok(Some(t.with_location(location)));
            } else if c == '|' {
                let t = match self.get_quoted_identifier() {
                    Ok(v) => v,
                    Err(e) => {
                        return Err(e);
                    },
                };
                return Ok(Some(t.with_location(location)));
            } else if is_identifier_initial(c) {
                let t = match self.get_normal_identifier() {
                    Ok(v) => v,
                    Err(e) => {
                        return Err(e);
                    },
                };
                return Ok(Some(t.with_location(location)));
            } else {
                return Err(LexerError::UnexpectedBegin.with_location(location));
            }
        }
    }

    /// Reads the token opened by `#` at the committed position (not a block comment).
    #[verifier::rlimit(100)]
    fn get_hash_token(&mut self) -> (r: Result<
        Option<Located<Token>>,
        Located<LexerError>,
    >)
        requires
            old(self).wf(),
            old(self).synced(),
            old(self).spec_pos() < old(self).src().len(),
            old(self).src()[old(self).spec_pos()] == '#',
            !(old(self).spec_pos() + 1 < old(self).src().len() && old(self).src()[old(
                self,
            ).spec_pos() + 1] == '|'),
        ensures
            final(self).wf(),
            final(self).src() == old(self).src(),
            final(self).spec_pos() >= old(self).spec_pos(),
            match spec_next_token(old(self).src(), old(self).spec_pos()) {
                NextM::EndM => true,
                NextM::TokM(tm, st, e) => r matches Ok(o) && o matches Some(lt)
                    && token_matches(tm, lt.data)
                    && lt.location == loc_after(old(self).src().take(st))
                    && final(self).synced() && final(self).spec_pos() == e
                    && e > old(self).spec_pos(),
                NextM::FailM(er, ep) => r matches Err(le) && le.data == er && le.location
                    == loc_after(old(self).src().take(ep)),
            },
    {
        let ghost s = self.src();
        let ghost p = self.spec_pos();
        let len = self.chars.len();
        let location = self.advance_location;
                if self.pos + 1 >= len {
                    return Err(LexerError::UnexpectedEnd.with_location(location));
                }
                let c1 = self.chars[self.pos + 1];
                if c1 == '|' {
                    proof {
                        assert(false);
                    }
                    return Err(LexerError::UnrecognizedToken.with_location(location));
                }
                if c1 == '(' {
                    self.advance();
                    self.advance();
                    return Ok(Some(Token::VecConsIntro.with_location(location)));
                } else if c1 == 't' {
                    self.advance();
                    self.advance();
                    return Ok(
                        Some(Token::Primitive(Primitive::Boolean(true)).with_location(location)),
                    );
                } else if c1 == 'f' {
                    self.advance();
                    self.advance();
                    return Ok(
                        Some(Token::Primitive(Primitive::Boolean(false)).with_location(location)),
                    );
                } else if c1 == '\\' {
                    if self.pos + 2 < len {
                        let ch = self.chars[self.pos + 2];
                        self.advance_n(3);
                        return Ok(
                            Some(
                                Token::Primitive(Primitive::Character(ch)).with_location(location),
                            ),
                        );
                    }
                    return Err(LexerError::UnexpectedEnd.with_location(location));
                } else if c1 == 'u' {
                    if len - self.pos > 3 && self.chars[self.pos + 2] == '8'
                        && self.chars[self.pos + 3] == '(' {
                        self.advance_n(4);
                        return Ok(Some(Token::ByteVecConsIntro.with_location(location)));
                    }
                    return Err(LexerError::UnrecognizedToken.with_location(location));
                } else if c1 == 'e' || c1 == 'i' || c1 == 'b' || c1 == 'o' || c1 == 'd' || c1
                    == 'x' {
                    let prefix = match self.get_complex_prefix() {
                        Ok(v) => v,
                        Err(e) => {
                            return Err(e);
                        },
                    };
                    let cm = match self.get_complex(prefix.0, prefix.1) {
                        Ok(v) => v,
                        Err(e) => {
                            return Err(e);
                        },
                    };
                    return Ok(
                        Some(Token::Primitive(Primitive::Complex(cm)).with_location(location)),
                    );
                } else {
                    return Err(LexerError::UnrecognizedToken.with_location(location));
                }
    }

    /// Reads the token opened by `.` at the committed position.
    #[verifier::rlimit(100)]
    fn get_dot_token(&mut self) -> (r: Result<
        Option<Located<Token>>,
        Located<LexerError>,
    >)
        requires
            old(self).wf(),
            old(self).synced(),
            old(self).spec_pos() < old(self).src().len(),
            old(self).src()[old(self).spec_pos()] == '.',
        ensures
            final(self).wf(),
            final(self).src() == old(self).src(),
            final(self).spec_pos() >= old(self).spec_pos(),
            match spec_next_token(old(self).src(), old(self).spec_pos()) {
                NextM::EndM => true,
                NextM::TokM(tm, st, e) => r matches Ok(o) && o matches Some(lt)
                    && token_matches(tm, lt.data)
                    && lt.location == loc_after(old(self).src().take(st))
                    && final(self).synced() && final(self).spec_pos() == e
                    && e > old(self).spec_pos(),
                NextM::FailM(er, ep) => r matches Err(le) && le.data == er && le.location
                    == loc_after(old(self).src().take(ep)),
            },
    {
        let ghost s = self.src();
        let ghost p = self.spec_pos();
        let len = self.chars.len();
        let location = self.advance_location;
                if self.pos + 1 >= len || is_delimiter(self.chars[self.pos + 1]) {
                    self.advance();
                    return Ok(Some(Token::Period.with_location(location)));
                }
                let c1 = self.chars[self.pos + 1];
                if '0' <= c1 && c1 <= '9' {
                    let cm = match self.get_complex(Radix::Decimal, true) {
                        Ok(v) => v,
                        Err(e) => {
                            return Err(e);
                        },
                    };
                    return Ok(
                        Some(Token::Primitive(Primitive::Complex(cm)).with_location(location)),
                    );
                }
                let t = match self.get_percular_identifier() {
                    Ok(v) => v,
                    Err(e) => {
                        return Err(e);
                    },
                };
                return Ok(Some(t.with_location(location)));
    }

    /// Reads the token opened by a sign at the committed position.
    #[verifier::rlimit(100)]
    fn get_sign_token(&mut self) -> (r: Result<
        Option<Located<Token>>,
        Located<LexerError>,
    >)
        requires
            old(self).wf(),
            old(self).synced(),
            old(self).spec_pos() < old(self).src().len(),
            old(self).src()[old(self).spec_pos()] == '+' || old(self).src()[old(
                self,
            ).spec_pos()] == '-',
        ensures
            final(self).wf(),
            final(self).src() == old(self).src(),
            final(self).spec_pos() >= old(self).spec_pos(),
            match spec_next_token(old(self).src(), old(self).spec_pos()) {
                NextM::EndM => true,
                NextM::TokM(tm, st, e) => r matches Ok(o) && o matches Some(lt)
                    && token_matches(tm, lt.data)
                    && lt.location == loc_after(old(self).src().take(st))
                    && final(self).synced() && final(self).spec_pos() == e
                    && e > old(self).spec_pos(),
                NextM::FailM(er, ep) => r matches Err(le) && le.data == er && le.location
                    == loc_after(old(self).src().take(ep)),
            },
    {
        let ghost s = self.src();
        let ghost p = self.spec_pos();
        let len = self.chars.len();
        let location = self.advance_location;
                let number = if self.pos + 1 < len && (('0' <= self.chars[self.pos
                    + 1] && self.chars[self.pos + 1] <= '9') || self.chars[self.pos + 1] == '.') {
                    true
                } else if self.pos + 1 < len && self.chars[self.pos + 1] == 'i'
                    && (self.pos + 2 >= len || is_delimiter(
                    self.chars[self.pos + 2],
                )) {
                    true
                } else {
                    self.peek();
                    proof {
                        reveal_strlit("inf.0");
                        reveal_strlit("nan.0");
                        assert("inf.0"@ =~= inf_seq());
                        assert("nan.0"@ =~= nan_seq());
                    }
                    let has_inf = self.has_specific_string("inf.0");
                    let has_nan = self.has_specific_string("nan.0");
                    self.reset();
                    has_inf || has_nan
                };
                if number {
                    let cm = match self.get_complex(Radix::Decimal, true) {
                        Ok(v) => v,
                        Err(e) => {
                            return Err(e);
                        },
                    };
                    return Ok(
                        Some(Token::Primitive(Primitive::Complex(cm)).with_location(location)),
                    );
                }
                let t = match self.get_percular_identifier() {
                    Ok(v) => v,
                    Err(e) => {
                        return Err(e);
                    },
                };
                return Ok(Some(t.with_location(location)));
    }

    /// Yields the next token with its location, `None` when only trivia
    /// remains, or the lexical error where the characters form no token:
    /// exactly what `spec_next_token` says of the committed position.
    pub fn get_next_token(&mut self) -> (r: Result<
        Option<Located<Token>>,
        Located<LexerError>,
    >)
        requires
            old(self).wf(),
            old(self).synced(),
        ensures
            final(self).wf(),
            final(self).src() == old(self).src(),
            final(self).spec_pos() >= old(self).spec_pos(),
            match spec_next_token(old(self).src(), old(self).spec_pos()) {
                NextM::EndM => r matches Ok(o) && o is None && final(self).synced() && final(self).spec_pos() == old(self).src().len(),
                NextM::TokM(tm, st, e) => r matches Ok(o) && o matches Some(lt)
                    && token_matches(tm, lt.data)
                    && lt.location == loc_after(old(self).src().take(st))
                    && final(self).synced() && final(self).spec_pos() == e
                    && e > old(self).spec_pos(),
                NextM::FailM(er, ep) => r matches Err(le) && le.data == er && le.location
                    == loc_after(old(self).src().take(ep)),
            },
    {
        let ghost s = self.src();
        let ghost start = self.spec_pos();
        loop
            invariant
                self.wf(),
                self.synced(),
                self.src() == s,
                s == old(self).src(),
                start == old(self).spec_pos(),
                0 <= start <= self.spec_pos() <= s.len(),
                spec_next_token(s, start) == spec_next_token(s, self.spec_pos()),
            decreases s.len() - self.spec_pos(),
        {
            if self.pos >= self.chars.len() {
                return Ok(None);
            }
            let ghost p = self.spec_pos();
            let c = self.chars[self.pos];
            if is_whitespace(c) {
                self.advance();
            } else if c == ';' {
                self.skip_line_comment();
                proof {
                    lemma_line_comment_end_range(s, p + 1);
                }
            } else if c == '#' && self.pos + 1 < self.chars.len() && self.chars[self.pos + 1]
                == '|' {
                self.skip_block_comment();
                proof {
                    lemma_block_comment_end_range(s, p + 2, 1);
                }
            } else {
                return self.get_token_here();
            }
        }
    }
}

/// Lexes a whole text: its tokens in source order, or the first lexical
/// error.  The tokens agree one for one with what `spec_tokens` says of the
/// text.
#[verifier::rlimit(100)]
pub fn tokenize(text: &str) -> (r: Result<Vec<Token>, Located<LexerError>>)
    ensures
        match spec_tokens(text@, 0) {
            Ok(ms) => r matches Ok(ts) && ts@.len() == ms.len() && (forall|k: int|
                0 <= k < ms.len() ==> token_matches(ms[k].0, #[trigger] ts@[k])),
            Err(ep) => r matches Err(le) && le.data == ep.0 && le.location == loc_after(
                text@.take(ep.1),
            ),
        },
{
    let n = text.unicode_len();
    let mut v: Vec<char> = Vec::new();
    for i in 0..n
        invariant
            n == text@.len(),
            v@ =~= text@.take(i as int),
    {
        let c = text.get_char(i);
        v.push(c);
        proof {
            assert(v@ =~= text@.take(i + 1));
        }
    }
    proof {
        assert(v@ =~= text@);
    }
    let mut lexer = Lexer::new(v);
    let ghost s = text@;
    let mut tokens: Vec<Token> = Vec::new();
    let ghost mut done: Seq<(TokenM, int)> = Seq::empty();
    loop
        invariant
            lexer.wf(),
            lexer.synced(),
            lexer.src() == s,
            s == text@,
            0 <= lexer.spec_pos() <= s.len(),
            tokens@.len() == done.len(),
            forall|k: int| 0 <= k < done.len() ==> token_matches(done[k].0, #[trigger] tokens@[k]),
            match spec_tokens(s, lexer.spec_pos()) {
                Ok(rest) => spec_tokens(s, 0) == Ok::<Seq<(TokenM, int)>, (LexerError, int)>(
                    done + rest,
                ),
                Err(ep) => spec_tokens(s, 0) == Err::<Seq<(TokenM, int)>, (LexerError, int)>(ep),
            },
        decreases s.len() - lexer.spec_pos(),
    {
        let ghost cur = lexer.spec_pos();
        proof {
            lemma_spec_tokens_step(s, cur);
        }
        match lexer.get_next_token() {
            Ok(None) => {
                proof {
                    assert(spec_tokens(s, cur) == Ok::<Seq<(TokenM, int)>, (LexerError, int)>(
                        Seq::empty(),
                    ));
                    assert(done + Seq::<(TokenM, int)>::empty() =~= done);
                }
                return Ok(tokens);
            },
            Ok(Some(lt)) => {
                let ghost stepm = spec_next_token(s, cur);
                let ghost data = lt.data;
                tokens.push(lt.extract());
                proof {
                    match stepm {
                        NextM::TokM(tm, st, e) => {
                            let old_done = done;
                            done = done.push((tm, st));
                            assert(token_matches(tm, data));
                            assert forall|k: int| 0 <= k < done.len() implies token_matches(
                                done[k].0,
                                #[trigger] tokens@[k],
                            ) by {
                                if k < old_done.len() {
                                    assert(done[k] == old_done[k]);
                                    assert(tokens@[k] == tokens@.drop_last()[k]);
                                }
                            }
                            assert(lexer.spec_pos() == e);
                            match spec_tokens(s, e) {
                                Ok(rest) => {
                                    assert(spec_tokens(s, cur) == Ok::<
                                        Seq<(TokenM, int)>,
                                        (LexerError, int),
                                    >(seq![(tm, st)] + rest));
                                    assert(spec_tokens(s, 0) == Ok::<
                                        Seq<(TokenM, int)>,
                                        (LexerError, int),
                                    >(old_done + (seq![(tm, st)] + rest)));
                                    assert((old_done + (seq![(tm, st)] + rest)) =~= (done
                                        + rest));
                                    assert(spec_tokens(s, 0) == Ok::<
                                        Seq<(TokenM, int)>,
                                        (LexerError, int),
                                    >(done + rest));
                                },
                                Err(x) => {
                                    assert(spec_tokens(s, cur) == Err::<
                                        Seq<(TokenM, int)>,
                                        (LexerError, int),
                                    >(x));
                                },
                            }
                        },
                        _ => {
                            assert(false);
                        },
                    }
                }
            },
            Err(e) => {
                return Err(e);
            },
        }
    }
}

} // verus!
