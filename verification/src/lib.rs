//! The front end of an interpreter for the Lox scripting language: a scanner
//! that turns source text into tokens, a recursive-descent parser that turns
//! tokens into the syntax tree of an expression, and a visitor by which
//! operations are run on such a tree.
//!
//! Each stage is stated as a function of its input alone (`scanner::scan`,
//! `parser::parse_expression`, `ast_printer::lisp_text`) and computed by
//! executable code that is proved to agree with it. Faults are values: the
//! scanner collects them and goes on, the parser returns the first.
//!
//! A number literal is held exactly, as the shortest decimal numeral of the
//! number (`number::Number`); no floating-point arithmetic takes part.

pub mod ast_printer;
pub mod ast_printer_rpn;
pub mod error;
pub mod expr;
pub mod number;
pub mod number_laws;
pub mod parser;
pub mod parser_laws;
pub mod round_trip;
pub mod scanner;
pub mod scanner_laws;
pub mod text;
pub mod token;
