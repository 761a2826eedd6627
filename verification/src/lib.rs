//! A small JSON library: a lexer that turns text into tokens, a
//! recursive-descent parser that turns tokens into a `JsonValue` tree, and a
//! pretty-printer that renders a tree back to indented text. Every function is
//! specified against a mathematical model of the same pipeline, so success,
//! every error message and every error position are pinned down exactly.

pub mod numbers;
pub mod parser;
pub mod printer;
pub mod roundtrip;
pub mod text;
pub mod tokenizer;
