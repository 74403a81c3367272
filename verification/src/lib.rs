pub mod text;
pub mod boolexpr;
pub mod lexer;
pub mod data;
pub mod parser;
pub mod input;
pub mod index;
pub mod library;
pub mod number;
pub mod query;
pub mod rows;
pub mod tables;
pub mod units;
pub mod selection;
pub mod stream;
pub mod narrow;
pub mod ranges;
pub mod positions;
pub mod boolsyntax;
pub mod coverage;
pub mod tablenames;
