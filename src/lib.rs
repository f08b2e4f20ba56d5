//! A small virtual machine for an eight-instruction, tape-based language.
//!
//! Program text is reduced to a sequence of [`Command`]s by
//! [`parse_program`]; a [`Machine`] then executes that sequence against a
//! tape of [`TAPE_LEN`] byte cells, one step at a time ([`Machine::step`]) or
//! up to a step budget ([`Machine::run`], [`execute`]).
mod command;
mod laws;
mod machine;

pub use command::{parse, parse_program, Command};
pub use machine::{execute, Action, Execution, Finish, Machine, RunError, TAPE_LEN};
