//! Evaluator core of a minimal Scheme-like language.
//!
//! The crate turns a token stream into syntax nodes (`parser`), and reduces
//! syntax nodes to runtime values in a lexically scoped environment chain
//! (`interpreter`).  Every executable function is verified against a
//! mathematical model of the interpreter.

pub mod numeral;
pub mod parser;
pub mod value;
pub mod env;
pub mod interpreter;
pub mod laws;

pub use numeral::i64_to_string;
pub use parser::{parse, Node, ParseError, Token};
pub use value::{Builtin, Function, Value};
pub use env::Environment;
pub use interpreter::{interpret, RuntimeError};
