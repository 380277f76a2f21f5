pub mod chars;
pub mod keywords;
pub mod lexer;
pub mod logger;
pub mod syntax;
pub mod token;
pub mod laws;
pub mod parser;
