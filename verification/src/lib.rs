//! An interpreter core for Unlambda: a parser, a compiler to a linear
//! opcode array, and a stack machine with promises, first-class
//! continuations and return-stack coalescing.  Every function carries a
//! contract over a mathematical model of the syntax and of the machine.
//!
//! The machine does no input or output of its own.  [`VmState::step`]
//! takes one step and says what it asks of its driver; [`run_vm`] and
//! [`parse_compile_run`] drive it against a [`Console`] with prepared
//! input, for a bounded number of steps.
//!
//! Beyond the contracts of the functions, three invariants of running
//! programs are proved: the return stack stays coalesced, compiled code
//! keeps the machine inside its shape, and a compiled program without
//! comparisons never fails and reaches `Finish` with one operand and the
//! sentinel frame alone.

pub mod balance;
pub mod compile;
pub mod input;
pub mod machine;
pub mod parse;
pub mod run;
pub mod safety;
pub mod value;

pub use crate::compile::{compile, compile_toplevel, OpCode};
pub use crate::input::{feed, Progress};
pub use crate::machine::{Action, VmError};
pub use crate::parse::{
    parse_toplevel, Application, CharPos, CharPosIterator, Combinator, ParseError, SyntaxTree,
};
pub use crate::run::{parse_compile_run, run_vm, Console, Error};
pub use crate::value::{Expression, Function, VmState};
