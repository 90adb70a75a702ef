//! An optimizing compiler and interpreter for Brainfuck.
//!
//! Source text is parsed into an intermediate representation
//! ([`program::Brainfuck`]), improved by optimization passes
//! ([`optimize`]), and then either run by the reference interpreter
//! ([`machine`]) or turned into C or NASM assembly ([`codegen`]).
pub mod codegen;
pub mod error;
pub mod instruct;
pub mod integer;
pub mod machine;
pub mod optimize;
pub mod program;
pub mod serialize;
pub mod text;

pub use error::Error;
pub use instruct::Instruct;
pub use integer::BrainfuckInteger;
pub use program::Brainfuck;
