//! A small expression-language toolchain: text is split into tokens, the
//! tokens are read into an s-expression, the s-expression is turned into an
//! arithmetic syntax tree, and the tree is either evaluated directly or
//! compiled to instructions for a register machine and executed there.
//!
//! Every stage is a total function with a contract stated over the
//! mathematical view of its input and output.

pub mod ast;
pub mod balance;
pub mod compiler;
pub mod env;
pub mod equivalence;
pub mod eval;
pub mod lexer;
pub mod machine;
pub mod reader;
pub mod render;
pub mod roundtrip;
pub mod shape;
pub mod text;
pub mod types;
