pub mod collapse;
pub mod equivalence;
pub mod lexer;
pub mod macro_expander;
pub mod parser;
pub mod token;
pub mod views;
