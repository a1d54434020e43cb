//! A Scheme front end: a lexer turning characters into located tokens, and a
//! reader folding located tokens into S-expression datums.

pub mod datum;
pub mod error;
pub mod expression;
pub mod interpreter;
pub mod float;
pub mod grammar;
pub mod lexer;
pub mod located;
pub mod pair;
pub mod parser;
pub mod processor;
pub mod token;

pub use datum::Datum;
pub use datum::LocatedDatum;
pub use datum::DatumPair;
pub use error::LexerError;
pub use error::ProcessorError;
pub use expression::Expression;
pub use interpreter::Interpreter;
pub use lexer::Lexer;
pub use located::Located;
pub use located::Location;
pub use located::ToLocated;
pub use pair::GenericPair;
pub use parser::Parser;
pub use processor::Processor;
pub use token::Complex;
pub use token::Primitive;
pub use token::Real;
pub use token::Token;
