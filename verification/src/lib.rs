//! The front end of a small language of bracketed expressions: a cursor
//! over the characters of a source text, a tokenizer for the phrases of the
//! language, and a recursive-descent parser that turns a text into a tree
//! of expressions. What each parser returns is stated against the grammar
//! in `parser::grammar`, and what holds of the grammar is proved in
//! `parser::laws`.

pub mod options;
pub mod parser;
pub mod peek_while;
