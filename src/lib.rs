//! A small stack language: a single-pass compiler that type-checks source
//! text into stack-machine instructions, and the virtual machine that runs
//! them.
pub mod common;
pub mod eval;
pub mod grammar;
pub mod lexer;
pub mod parser;
pub mod render;
pub mod theorems;
pub mod utils;
