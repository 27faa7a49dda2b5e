pub mod entity;
pub mod ir;
pub mod text;
pub mod lexer;
pub mod parser;
pub mod language;
pub mod syntax;
pub mod query;
