//! Verified core of a ptrace-style process injector: parsing of a process's
//! memory-map description, word-granularity packing of code buffers, selection
//! of an executable scratch region, and the state machines that stage and run
//! code fragments inside a traced target while guaranteeing that the target's
//! memory and registers are restored.

pub mod injector;
pub mod proc;
pub mod region;
pub mod runner;
pub mod words;

use vstd::prelude::*;

verus! {

/// The error kinds the library reports.
#[derive(Clone, Copy, Debug, PartialEq, Eq, Structural)]
pub enum Error {
    /// A malformed memory-map line; fatal to the whole load.
    ParseError,
    /// An underlying read/write/process-control failure, reported by the driver.
    IoError,
    /// No suitable executable scratch region exists.
    NotFound,
    /// The target stopped for a reason other than the expected trap, or terminated.
    ExecutionFailure,
    /// A bounded wait for the target to stop ran out.
    Timeout,
}

} // verus!
