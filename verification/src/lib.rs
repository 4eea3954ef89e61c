pub mod engine;
pub mod kind;
pub mod lexer;
pub mod operator;
pub mod parser;
pub mod propositional;
pub mod render;
pub mod repeats_no_whitespace;
pub mod tokenizer;
