//! A sandboxed program-execution core.
//!
//! The crate shuttles byte streams between a supervising caller and
//! cooperatively scheduled executable modules, and tracks each spawned
//! module's lifecycle through a small state machine.  All decisions are made
//! by the verified functions in this library; the host-facing plumbing that
//! performs the actual asynchronous waits lives outside it.

use vstd::prelude::*;

pub mod errors;
pub mod table;
pub mod async_io;
pub mod binfs;
pub mod compilation_mode;
pub mod proc;
pub mod term;

verus! {

/// Standard input file descriptor.
pub const STDIN: u32 = 0;

/// Standard output file descriptor.
pub const STDOUT: u32 = 1;

/// Standard error file descriptor.
pub const STDERR: u32 = 2;

} // verus!
