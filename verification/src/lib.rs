//! The surface syntax of R6RS Scheme: a lexer and a parser with verified
//! contracts.

pub mod ascii;
pub mod ast;
pub mod balance;
pub mod comments;
pub mod copies;
pub mod forms;
pub mod laws;
pub mod layout;
pub mod lexer;
pub mod lexical;
pub mod literals;
pub mod model;
pub mod numerals;
pub mod parser;
pub mod positions;
pub mod rejections;
pub mod sequence;
pub mod soundness;
pub mod spelling;
pub mod surroundings;
pub mod syntax;
pub mod text;
pub mod views;
pub mod writing;
