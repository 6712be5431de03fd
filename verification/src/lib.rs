//! Core of an interactive, time-travel debugger for the RV32I subset of
//! RISC-V assembly.
//!
//! The crate is organised in three layers:
//! - [`lex`] turns source text into a stream of tokens;
//! - [`parse`] turns tokens into a validated [`parse::Program`];
//! - [`executor`] runs a program one instruction at a time, with a sparse
//!   byte memory, configurable overflow and alignment policies, a shadow
//!   stack that enforces the calling convention, and snapshot-based
//!   reverse execution.
#![allow(non_camel_case_types)]

pub mod executor;
pub mod lex;
pub mod parse;
