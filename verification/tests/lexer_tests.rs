use scheme_reader::error::LexerError;
use scheme_reader::lexer::{tokenize, Lexer};
use scheme_reader::token::{Complex, Primitive, Real, Token};

fn bits(f: f64) -> u64 {
    f.to_bits()
}

// Identifiers have two uses within Scheme programs: as variables or
// syntactic keywords, and as symbols inside literals.
#[test]
fn identifier() {
    let tests = vec![
        ("...", Token::Identifier(String::from("..."))),
        ("+", Token::Identifier(String::from("+"))),
        ("+soup+", Token::Identifier(String::from("+soup+"))),
        ("<=?", Token::Identifier(String::from("<=?"))),
        ("->string", Token::Identifier(String::from("->string"))),
        ("a34kTMNs", Token::Identifier(String::from("a34kTMNs"))),
        ("lambda", Token::Identifier(String::from("lambda"))),
        ("list->vector", Token::Identifier(String::from("list->vector"))),
        ("q", Token::Identifier(String::from("q"))),
        ("V17a", Token::Identifier(String::from("V17a"))),
        ("|two words|", Token::Identifier(String::from("two words"))),
        ("|two; words|", Token::Identifier(String::from("two; words"))),
        (
            "the-word-recursion-has-many-meanings",
            Token::Identifier(String::from("the-word-recursion-has-many-meanings")),
        ),
    ];

    let text = tests.iter().fold("".to_string(), |t, p| t + " " + p.0);
    let tokens = tests.iter().map(|p| p.1.clone()).collect::<Vec<_>>();

    assert_eq!(tokenize(&text).unwrap(), tokens);
}

// Whitespace can occur between any two tokens, but not within a token;
// whitespace inside a string or a |-quoted symbol is significant.
#[test]
fn whitespace() {
    let text = "( )\t.\n(\r)";
    assert_eq!(
        tokenize(text).unwrap(),
        vec![
            Token::LeftParen,
            Token::RightParen,
            Token::Period,
            Token::LeftParen,
            Token::RightParen,
        ]
    );

    let tests = vec![
        (
            "\" \t\r\n\"",
            Token::Primitive(Primitive::String(String::from(" \t\r\n"))),
        ),
        ("| \t\r\n|", Token::Identifier(String::from(" \t\r\n"))),
    ];
    let text = tests.iter().fold("".to_string(), |t, p| t + " " + p.0);
    let tokens = tests.iter().map(|p| p.1.clone()).collect::<Vec<_>>();
    assert_eq!(tokenize(&text).unwrap(), tokens);
}

// A semicolon starts a line comment; block comments are properly nested
// #| and |# pairs.
#[test]
fn comments() {
    let text = "; (( \n )) ; . .";
    assert_eq!(
        tokenize(text).unwrap(),
        vec![Token::RightParen, Token::RightParen]
    );

    let text = "
        #|
        The FACT procedure computes the factorial
        of a non-negative integer.
        |#
        (define fact)
    ";
    assert_eq!(
        tokenize(text).unwrap(),
        vec![
            Token::LeftParen,
            Token::Identifier(String::from("define")),
            Token::Identifier(String::from("fact")),
            Token::RightParen,
        ]
    );
}

// <token> -> ( | ) | #( | #u8( | ' | ` | , | ,@ | .
#[test]
fn other_notations() {
    assert_eq!(
        tokenize("()#()#u8()'`,,@.").unwrap(),
        vec![
            Token::LeftParen,
            Token::RightParen,
            Token::VecConsIntro,
            Token::RightParen,
            Token::ByteVecConsIntro,
            Token::RightParen,
            Token::Quote,
            Token::Quasiquote,
            Token::Unquote,
            Token::UnquoteSplicing,
            Token::Period,
        ]
    );
}

#[test]
fn datum_labels() {
    // Datum labels are not part of the recognized grammar.
}

#[test]
fn characters() {
    assert_eq!(
        tokenize("#\\a#\\ #\\\t").unwrap(),
        vec![
            Token::Primitive(Primitive::Character('a')),
            Token::Primitive(Primitive::Character(' ')),
            Token::Primitive(Primitive::Character('\t')),
        ]
    );
}

#[test]
fn number() {
    assert_eq!(
        tokenize(
            "
            +123 123 -123
            -123123/23
            3e-3
            3.3e+3
            .3e4
            3.e3

            1@-1
            1@0.0

            .1e-1+1.0i

            +nan.0-.1e-1i

            1/2+i

            -321-i

            .618033e+0-nan.0i

            +1/3i
            +.31415926e1i

            -10e-1i
            -2i

            +inf.0i
            -nan.0i

            +i

            -i
            "
        )
        .unwrap(),
        vec![
            Complex::Real(Real::Integer(123)),
            Complex::Real(Real::Integer(123)),
            Complex::Real(Real::Integer(-123)),
            Complex::Real(Real::Ration(-123123, 23)),
            Complex::Real(Real::Float(bits(0.003))),
            Complex::Real(Real::Float(bits(3300.0))),
            Complex::Real(Real::Float(bits(3000.0))),
            Complex::Real(Real::Float(bits(3000.0))),
            Complex::Complex(Real::Integer(1), Real::Integer(-1)),
            Complex::Complex(Real::Integer(1), Real::Float(bits(0.0))),
            Complex::Complex(Real::Float(bits(0.01)), Real::Float(bits(1.0))),
            Complex::Complex(Real::PosNan, Real::Float(bits(-0.01))),
            Complex::Complex(Real::Ration(1, 2), Real::Integer(1)),
            Complex::Complex(Real::Integer(-321), Real::Integer(-1)),
            Complex::Complex(Real::Float(bits(0.618033)), Real::NegNan),
            Complex::Imaginary(Real::Ration(1, 3)),
            Complex::Imaginary(Real::Float(bits(3.1415926))),
            Complex::Imaginary(Real::Float(bits(-1.0))),
            Complex::Imaginary(Real::Integer(-2)),
            Complex::Imaginary(Real::PosInf),
            Complex::Imaginary(Real::NegNan),
            Complex::Imaginary(Real::Integer(1)),
            Complex::Imaginary(Real::Integer(-1)),
        ]
        .iter()
        .map(|c| Token::Primitive(Primitive::Complex(c.clone())))
        .collect::<Vec<_>>()
    );
}

#[test]
fn string() {
    assert_eq!(
        tokenize("\"()+-123\"\"\\\"\"\"\\a\\b\\t\\r\\n\\\\\\|\"").unwrap(),
        vec![
            Token::Primitive(Primitive::String(String::from("()+-123"))),
            Token::Primitive(Primitive::String(String::from("\""))),
            Token::Primitive(Primitive::String(String::from("\u{007}\u{008}\t\r\n\\|"))),
        ]
    );
}

#[test]
fn delimiter() {
    assert_eq!(
        tokenize("\t(- \n4\r(+ 1 2)) ...)").unwrap(),
        vec![
            Token::LeftParen,
            Token::Identifier(String::from("-")),
            Token::Primitive(Primitive::Complex(Complex::Real(Real::Integer(4)))),
            Token::LeftParen,
            Token::Identifier(String::from("+")),
            Token::Primitive(Primitive::Complex(Complex::Real(Real::Integer(1)))),
            Token::Primitive(Primitive::Complex(Complex::Real(Real::Integer(2)))),
            Token::RightParen,
            Token::RightParen,
            Token::Identifier(String::from("...")),
            Token::RightParen,
        ]
    );
}

#[test]
fn script() {
    assert_eq!(
        tokenize(
            "(define-syntax begin
            (syntax-rules ()
                ((begin exp ... )
                    ((lambda () exp ... )))))"
        )
        .unwrap(),
        vec![
            Token::LeftParen,
            Token::Identifier("define-syntax".to_string()),
            Token::Identifier("begin".to_string()),
            Token::LeftParen,
            Token::Identifier("syntax-rules".to_string()),
            Token::LeftParen,
            Token::RightParen,
            Token::LeftParen,
            Token::LeftParen,
            Token::Identifier("begin".to_string()),
            Token::Identifier("exp".to_string()),
            Token::Identifier("...".to_string()),
            Token::RightParen,
            Token::LeftParen,
            Token::LeftParen,
            Token::Identifier("lambda".to_string()),
            Token::LeftParen,
            Token::RightParen,
            Token::Identifier("exp".to_string()),
            Token::Identifier("...".to_string()),
            Token::RightParen,
            Token::RightParen,
            Token::RightParen,
            Token::RightParen,
            Token::RightParen,
        ]
    );
}

// A comment before a form leaves the form's tokens untouched.
#[test]
fn comment_then_parens() {
    assert_eq!(
        tokenize("; comment\n()").unwrap(),
        vec![Token::LeftParen, Token::RightParen]
    );
}

// Block comments nest: the inner pair does not close the outer one.
#[test]
fn nested_block_comment() {
    assert_eq!(
        tokenize("#| #| x |# |# y").unwrap(),
        vec![Token::Identifier(String::from("y"))]
    );
}

// A polar-form literal is stored as a rectangular pair.
#[test]
fn polar_form_number() {
    assert_eq!(
        tokenize("1@-1").unwrap(),
        vec![Token::Primitive(Primitive::Complex(Complex::Complex(
            Real::Integer(1),
            Real::Integer(-1)
        )))]
    );
}

// A NaN real part with a float imaginary part in one lexeme.
#[test]
fn nan_with_float_imaginary() {
    assert_eq!(
        tokenize("+nan.0-.1e-1i").unwrap(),
        vec![Token::Primitive(Primitive::Complex(Complex::Complex(
            Real::PosNan,
            Real::Float((-0.01f64).to_bits())
        )))]
    );
}

// The recognized string escapes, in one literal.
#[test]
fn string_escapes() {
    assert_eq!(
        tokenize("\"\\a\\b\\t\\r\\n\\\\\\|\"").unwrap(),
        vec![Token::Primitive(Primitive::String(String::from(
            "\u{0007}\u{0008}\t\r\n\\|"
        )))]
    );
}

// Radix and exactness prefixes, in either order, each class at most once.
#[test]
fn number_prefixes() {
    assert_eq!(
        tokenize("#b101 #o17 #d42 #xff #e#x10 #x#e10").unwrap(),
        vec![
            Token::Primitive(Primitive::Complex(Complex::Real(Real::Integer(5)))),
            Token::Primitive(Primitive::Complex(Complex::Real(Real::Integer(15)))),
            Token::Primitive(Primitive::Complex(Complex::Real(Real::Integer(42)))),
            Token::Primitive(Primitive::Complex(Complex::Real(Real::Integer(255)))),
            Token::Primitive(Primitive::Complex(Complex::Real(Real::Integer(16)))),
            Token::Primitive(Primitive::Complex(Complex::Real(Real::Integer(16)))),
        ]
    );
}

// Booleans and the empty quoted identifier.
#[test]
fn booleans_and_bars() {
    assert_eq!(
        tokenize("#t #f ||").unwrap(),
        vec![
            Token::Primitive(Primitive::Boolean(true)),
            Token::Primitive(Primitive::Boolean(false)),
            Token::Identifier(String::from("||")),
        ]
    );
}

// Each lexical error variant, on an input that provokes it.
#[test]
fn lexer_errors() {
    assert_eq!(tokenize("[").unwrap_err().data, LexerError::UnexpectedBegin);
    assert_eq!(
        tokenize("\"abc").unwrap_err().data,
        LexerError::UnexpectedEnd
    );
    assert_eq!(
        tokenize("#q").unwrap_err().data,
        LexerError::UnrecognizedToken
    );
    // A duplicated prefix class is refused.
    assert_eq!(
        tokenize("#x#o10").unwrap_err().data,
        LexerError::UnrecognizedToken
    );
    // A literal too large for the token's field is refused, not wrapped.
    assert_eq!(
        tokenize("99999999999999999999").unwrap_err().data,
        LexerError::UnrecognizedToken
    );
    // A zero denominator never reaches a Ration.
    assert_eq!(
        tokenize("1/0").unwrap_err().data,
        LexerError::UnrecognizedToken
    );
}

// Token locations report row and column of the first character.
#[test]
fn token_locations() {
    let mut lx = Lexer::new("(a\n b)".chars().collect());
    let t1 = lx.get_next_token().unwrap().unwrap();
    assert_eq!((t1.location.row, t1.location.col), (0, 0));
    let t2 = lx.get_next_token().unwrap().unwrap();
    assert_eq!((t2.location.row, t2.location.col), (0, 1));
    let t3 = lx.get_next_token().unwrap().unwrap();
    assert_eq!((t3.location.row, t3.location.col), (1, 1));
    let t4 = lx.get_next_token().unwrap().unwrap();
    assert_eq!((t4.location.row, t4.location.col), (1, 2));
    assert!(lx.get_next_token().unwrap().is_none());
}

// The \x and backslash-space escapes are accepted and add nothing: a
// recorded gap of the escape table.
#[test]
fn unfinished_escapes_add_nothing() {
    assert_eq!(
        tokenize("\"a\\xb\"").unwrap(),
        vec![Token::Primitive(Primitive::String(String::from("ab")))]
    );
    assert_eq!(
        tokenize("\"a\\ b\"").unwrap(),
        vec![Token::Primitive(Primitive::String(String::from("ab")))]
    );
}

// Float literals beyond the binary64 range saturate; the smallest
// subnormal still comes through.
#[test]
fn float_range_edges() {
    assert_eq!(
        tokenize("1.0e999").unwrap(),
        vec![Token::Primitive(Primitive::Complex(Complex::Real(
            Real::Float(f64::INFINITY.to_bits())
        )))]
    );
    assert_eq!(
        tokenize("1.0e-999").unwrap(),
        vec![Token::Primitive(Primitive::Complex(Complex::Real(
            Real::Float((0.0f64).to_bits())
        )))]
    );
    assert_eq!(
        tokenize("5.0e-324").unwrap(),
        vec![Token::Primitive(Primitive::Complex(Complex::Real(
            Real::Float((5.0e-324f64).to_bits())
        )))]
    );
    assert_eq!(
        tokenize("1.7976931348623157e308").unwrap(),
        vec![Token::Primitive(Primitive::Complex(Complex::Real(
            Real::Float((1.7976931348623157e308f64).to_bits())
        )))]
    );
}
