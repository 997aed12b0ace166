//! Observed outcome of one repository subprocess invocation.
//!
//! The command executor itself is an external collaborator; the library only
//! reasons about what it handed back: a raw standard-output stream on
//! success, or a typed exit code on failure.

use vstd::prelude::*;

verus! {

/// What one repository command invocation produced.
pub enum ExecOutcome {
    /// The command ran to completion successfully; its raw standard output.
    Output { stdout: Vec<u8> },
    /// The command failed to run or exited unsuccessfully; the exit code,
    /// when one was available.
    Failure { code: Option<i32> },
}

} // verus!
