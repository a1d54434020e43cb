use scheme_reader::datum::{Datum, DatumPair};
use scheme_reader::error::{LexerError, ProcessorError};
use scheme_reader::lexer::Lexer;
use scheme_reader::located::Located;
use scheme_reader::processor::Processor;
use scheme_reader::token::{Complex, Primitive, Real, Token};

fn reader_for(text: &str) -> Processor {
    let mut lx = Lexer::new(text.chars().collect());
    let mut items = Vec::new();
    loop {
        match lx.get_next_token() {
            Ok(None) => break,
            Ok(Some(lt)) => items.push(Located {
                data: Ok(lt.data),
                location: lt.location,
            }),
            Err(le) => {
                items.push(Located {
                    data: Err(le.data),
                    location: le.location,
                });
                break;
            }
        }
    }
    Processor::from(items)
}

fn read_one(text: &str) -> Datum {
    let mut p = reader_for(text);
    let d = p.get_next_datum().unwrap().unwrap().data;
    assert!(p.get_next_datum().unwrap().is_none());
    d
}

fn read_err(text: &str) -> ProcessorError {
    let mut p = reader_for(text);
    loop {
        match p.get_next_datum() {
            Ok(Some(_)) => continue,
            Ok(None) => panic!("expected a reader error"),
            Err(le) => return le.data,
        }
    }
}

/// The elements of a proper list, or the elements and dotted tail.
fn list_parts(d: &Datum) -> (Vec<&Datum>, Option<&Datum>) {
    let mut elems = Vec::new();
    let mut cur = d;
    loop {
        match cur {
            Datum::Pair(cell) => match cell.as_ref() {
                DatumPair::Empty => return (elems, None),
                DatumPair::Cons(car, cdr) => {
                    elems.push(&car.data);
                    cur = &cdr.data;
                }
            },
            other => return (elems, Some(other)),
        }
    }
}

fn int_datum(n: i64) -> Datum {
    Datum::Primitive(Primitive::Complex(Complex::Real(Real::Integer(n))))
}

// A proper list keeps its elements in order and ends on the empty list.
#[test]
fn proper_list() {
    let d = read_one("(+ 1 2)");
    let (elems, tail) = list_parts(&d);
    assert!(tail.is_none());
    assert_eq!(elems.len(), 3);
    assert_eq!(*elems[0], Datum::Symbol(String::from("+")));
    assert_eq!(*elems[1], int_datum(1));
    assert_eq!(*elems[2], int_datum(2));
}

// A dotted pair puts the tail directly in the cdr: the cdr is no pair.
#[test]
fn dotted_pair() {
    let d = read_one("(a . b)");
    let (elems, tail) = list_parts(&d);
    assert_eq!(elems.len(), 1);
    assert_eq!(*elems[0], Datum::Symbol(String::from("a")));
    assert_eq!(*tail.unwrap(), Datum::Symbol(String::from("b")));
}

// A quote abbreviation desugars to a two-element proper list.
#[test]
fn quote_abbreviation() {
    let d = read_one("'x");
    let (elems, tail) = list_parts(&d);
    assert!(tail.is_none());
    assert_eq!(elems.len(), 2);
    assert_eq!(*elems[0], Datum::Symbol(String::from("quote")));
    assert_eq!(*elems[1], Datum::Symbol(String::from("x")));
}

// The other three abbreviations desugar to their canonical symbols.
#[test]
fn quasiquote_family() {
    for (text, name) in [
        ("`x", "quasiquote"),
        (",x", "unquote"),
        (",@x", "unquote-splicing"),
    ] {
        let d = read_one(text);
        let (elems, tail) = list_parts(&d);
        assert!(tail.is_none());
        assert_eq!(elems.len(), 2);
        assert_eq!(*elems[0], Datum::Symbol(String::from(name)));
        assert_eq!(*elems[1], Datum::Symbol(String::from("x")));
    }
}

// A list of three whose middle element is a dotted pair.
#[test]
fn nested_dotted_middle() {
    let d = read_one("(a (b . c) d)");
    let (elems, tail) = list_parts(&d);
    assert!(tail.is_none());
    assert_eq!(elems.len(), 3);
    assert_eq!(*elems[0], Datum::Symbol(String::from("a")));
    assert_eq!(*elems[2], Datum::Symbol(String::from("d")));
    let (inner, inner_tail) = list_parts(elems[1]);
    assert_eq!(inner.len(), 1);
    assert_eq!(*inner[0], Datum::Symbol(String::from("b")));
    assert_eq!(*inner_tail.unwrap(), Datum::Symbol(String::from("c")));
}

// A bytevector collects its octets in order.
#[test]
fn bytevector() {
    let d = read_one("#u8(0 255 127)");
    assert_eq!(d, Datum::ByteVector(vec![0, 255, 127]));
}

// A vector collects its located elements in order.
#[test]
fn vector() {
    let d = read_one("#(1 2)");
    match d {
        Datum::Vector(elems) => {
            assert_eq!(elems.len(), 2);
            assert_eq!(elems[0].data, int_datum(1));
            assert_eq!(elems[1].data, int_datum(2));
        }
        other => panic!("expected a vector, got {:?}", other),
    }
}

// The empty list reads as a pair holding the empty cell.
#[test]
fn empty_list() {
    let d = read_one("()");
    assert_eq!(d, Datum::Pair(Box::new(DatumPair::Empty)));
}

// Each reader error variant, on an input that provokes it.
#[test]
fn reader_errors() {
    assert_eq!(read_err(")"), ProcessorError::UnmatchedParentheses);
    assert_eq!(read_err("."), ProcessorError::UnexpectedToken(Token::Period));
    assert_eq!(read_err("(a"), ProcessorError::UnexpectedEnd);
    assert_eq!(read_err("'"), ProcessorError::UnexpectedEnd);
    assert_eq!(
        read_err("(a . b c)"),
        ProcessorError::UnexpectedToken(Token::Identifier(String::from("c")))
    );
    assert_eq!(
        read_err("(a . . b)"),
        ProcessorError::UnexpectedToken(Token::Period)
    );
    assert_eq!(
        read_err("#u8(300)"),
        ProcessorError::UnexpectedToken(Token::Primitive(Primitive::Complex(Complex::Real(
            Real::Integer(300)
        ))))
    );
    assert_eq!(
        read_err("(\"unterminated"),
        ProcessorError::LexerError(LexerError::UnexpectedEnd)
    );
}

// Several top-level datums come out one per pull, in source order.
#[test]
fn several_datums() {
    let mut p = reader_for("a 5 (b)");
    assert_eq!(
        p.get_next_datum().unwrap().unwrap().data,
        Datum::Symbol(String::from("a"))
    );
    assert_eq!(p.get_next_datum().unwrap().unwrap().data, int_datum(5));
    let third = p.get_next_datum().unwrap().unwrap().data;
    let (elems, tail) = list_parts(&third);
    assert!(tail.is_none());
    assert_eq!(elems.len(), 1);
    assert!(p.get_next_datum().unwrap().is_none());
}

// Datums carry the location of their first character.
#[test]
fn datum_locations() {
    let mut p = reader_for("a\n (b)");
    let d1 = p.get_next_datum().unwrap().unwrap();
    assert_eq!((d1.location.row, d1.location.col), (0, 0));
    let d2 = p.get_next_datum().unwrap().unwrap();
    assert_eq!((d2.location.row, d2.location.col), (1, 1));
}
