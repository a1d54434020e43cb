use scheme_reader::expression::Expression;
use scheme_reader::interpreter::Interpreter;
use scheme_reader::lexer::Radix;
use scheme_reader::located::{Located, Location, ToLocated};
use scheme_reader::pair::GenericPair;
use scheme_reader::parser::Parser;
use scheme_reader::token::Real;

// Negation swaps the signed sentinels, negates the number forms, and flips
// a float's sign bit.
#[test]
fn reverse_values() {
    assert_eq!(Real::PosInf.reverse(), Real::NegInf);
    assert_eq!(Real::NegInf.reverse(), Real::PosInf);
    assert_eq!(Real::PosNan.reverse(), Real::NegNan);
    assert_eq!(Real::NegNan.reverse(), Real::PosNan);
    assert_eq!(Real::Integer(5).reverse(), Real::Integer(-5));
    assert_eq!(Real::Ration(-3, 7).reverse(), Real::Ration(3, 7));
    assert_eq!(
        Real::Float((1.5f64).to_bits()).reverse(),
        Real::Float((-1.5f64).to_bits())
    );
}

// Negating twice restores every form, the NaN sentinels included.
#[test]
fn reverse_involutive() {
    let samples = vec![
        Real::PosInf,
        Real::NegInf,
        Real::PosNan,
        Real::NegNan,
        Real::Integer(42),
        Real::Integer(i64::MIN),
        Real::Ration(-1, 2),
        Real::Float((0.25f64).to_bits()),
    ];
    for r in samples {
        assert_eq!(r.clone().reverse().reverse(), r);
    }
}

#[test]
fn radix_from_and_contains() {
    assert_eq!(Radix::from(2), Some(Radix::Binary));
    assert_eq!(Radix::from(8), Some(Radix::Octal));
    assert_eq!(Radix::from(10), Some(Radix::Decimal));
    assert_eq!(Radix::from(16), Some(Radix::Hexadecimal));
    assert_eq!(Radix::from(7), None);
    assert!(Radix::Binary.contains('1'));
    assert!(!Radix::Binary.contains('2'));
    assert!(Radix::Octal.contains('7'));
    assert!(!Radix::Octal.contains('8'));
    assert!(Radix::Decimal.contains('9'));
    assert!(!Radix::Decimal.contains('a'));
    assert!(Radix::Hexadecimal.contains('f'));
    assert!(!Radix::Hexadecimal.contains('g'));
}

#[test]
fn located_extract() {
    let loc = Location { row: 3, col: 4 };
    let l = Located { data: 7u32, location: loc };
    assert_eq!(l.extract(), 7);
}

#[test]
fn with_location_wraps() {
    let loc = Location { row: 1, col: 2 };
    let l = scheme_reader::token::Token::LeftParen.with_location(loc);
    assert_eq!(l.location, loc);
    assert_eq!(l.data, scheme_reader::token::Token::LeftParen);
}

#[test]
fn pair_default_is_empty() {
    let p: GenericPair<u32> = Default::default();
    assert_eq!(p, GenericPair::Empty);
}

// The character supply yields pushed-back characters newest first, then
// reads from the reader, skipping whitespace when asked.
#[test]
fn parser_get_char() {
    let mut parser = Parser::new();
    parser.unget('a');
    parser.unget('b');
    let mut input: &[u8] = b"  c d";
    assert_eq!(parser.get_char(&mut input, false), Some('b'));
    assert_eq!(parser.get_char(&mut input, true), Some('a'));
    assert_eq!(parser.get_char(&mut input, true), Some('c'));
    assert_eq!(parser.get_char(&mut input, true), Some('d'));
    assert_eq!(parser.get_char(&mut input, true), None);
}

// Pushed-back whitespace is skipped when skipping is on.
#[test]
fn parser_skips_ungot_whitespace() {
    let mut parser = Parser::new();
    parser.unget('x');
    parser.unget(' ');
    let mut input: &[u8] = b"";
    assert_eq!(parser.get_char(&mut input, true), Some('x'));
    assert_eq!(parser.get_char(&mut input, true), None);
}

#[test]
fn interpreter_eval_is_inert() {
    let mut interp = Interpreter::new();
    interp.eval(&Expression::Nil);
    interp.eval(&Expression::Cons(
        Box::new(Expression::Int(1)),
        Box::new(Expression::Symbol(String::from("x"))),
    ));
}
