//! A translator from an eight-command tape language to LLVM IR text.
//!
//! The pipeline is one-way: source text is run-length encoded into command
//! tokens ([`lexer`]), and the token sequence is assembled into a complete
//! program text ([`assemble`]), token by token ([`emit`]), behind a fixed
//! preamble ([`preamble`]). Every piece of text is stated as a sequence of
//! characters ([`templates`], [`decimal`]) and every function that writes is
//! proved to write exactly that.
//!
//! Loops are lowered with a stack of open loops. [`brackets`] says what it
//! means for brackets to match, and [`nesting`] proves that the stack pairs
//! them so, and that a program is assembled exactly where its brackets are
//! well nested ([`error`] is the fault otherwise).
//!
//! [`machine`] and [`execution`] state, as a machine that can be run, what the
//! generated program does with its tape; [`batching`] proves on it that
//! run-length batching cannot be observed.

pub mod assemble;
pub mod batching;
pub mod brackets;
pub mod decimal;
pub mod emit;
pub mod error;
pub mod execution;
pub mod lexer;
pub mod machine;
pub mod nesting;
pub mod preamble;
pub mod templates;
pub mod token;
