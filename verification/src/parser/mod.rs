pub mod compile;
pub mod lex_laws;
pub mod lexer;
pub mod rules;
pub mod syntax;
pub mod tagcheck;
pub mod tags;
pub mod tree;
pub mod tree_laws;
pub mod types;
