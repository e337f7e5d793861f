//! Effy: a small scripting language with test functions, and its verified interpreter.
//!
//! A script is read by the tokenizer (`tokenize`) and the parser (`parser`) into a syntax
//! tree (`ast`), which the interpreter (`interpreter`) runs. Each stage is proved to follow
//! a specification over the mathematical form of its input: a scanner over characters, a
//! grammar over tokens, and an evaluation over syntax trees (`semantics`).

pub mod ast;
pub mod cli;
pub mod environment;
pub mod interpreter;
pub mod message;
pub mod parser;
pub mod print;
pub mod runtime;
pub mod semantics;
pub mod shared;
pub mod source;
pub mod span;
pub mod test_event;
pub mod text;
pub mod token;
pub mod tokenize;
pub mod value;
