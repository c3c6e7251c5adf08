//! Client-side codec for a RESP-like wire protocol: a value model, a
//! byte-level tokenizer, a recursive-descent frame parser, a frame encoder,
//! and a command/pipeline model built on top of them.

pub mod builder;
pub mod cmd;
pub mod digits;
pub mod lexer;
pub mod lexi_data;
pub mod lexi_type;
pub mod multi;
pub mod parser;
pub mod token;
pub mod wire;
