//! A small stack language in the Forth tradition.
//!
//! Source text is split into tokens, the tokens are resolved into a flat list
//! of instructions whose structured control flow has become jump targets, and
//! a stack machine interprets that list, collecting every printed value.
//! Each stage states what it computes over a mathematical model of its data.

pub mod checker;
pub mod common;
pub mod function_table;
pub mod parser;
pub mod program;
pub mod stack;
pub mod stack_machine;
pub mod text;
pub mod tokenizer;
