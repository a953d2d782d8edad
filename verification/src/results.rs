//! What executing a command gives.

use vstd::prelude::*;

verus! {

/// The exit code of a command.
#[derive(Clone, Copy, Debug, PartialEq, Eq, Structural)]
pub enum ExecutionExitCode {
    /// The command succeeded.
    Success,
    /// The command failed.
    GeneralError,
    /// The command was not used as it should be.
    InvalidUsage,
    /// The command was interrupted.
    Interrupted,
    /// Any other exit code.
    Custom(u8),
}

impl ExecutionExitCode {
    /// The number of this exit code.
    pub open spec fn number(self) -> u8 {
        match self {
            ExecutionExitCode::Success => 0,
            ExecutionExitCode::GeneralError => 1,
            ExecutionExitCode::InvalidUsage => 2,
            ExecutionExitCode::Interrupted => 130,
            ExecutionExitCode::Custom(code) => code,
        }
    }

    /// The number of this exit code.
    pub fn code(&self) -> (r: u8)
        ensures
            r == self.number(),
    {
        match self {
            ExecutionExitCode::Success => 0,
            ExecutionExitCode::GeneralError => 1,
            ExecutionExitCode::InvalidUsage => 2,
            ExecutionExitCode::Interrupted => 130,
            ExecutionExitCode::Custom(code) => *code,
        }
    }
}

/// Where execution goes on.
#[derive(Clone, Copy, Debug, PartialEq, Eq, Structural)]
pub enum ExecutionControlFlow {
    /// At the next command.
    Normal,
    /// Behind the caller of the function or script.
    ReturnFromFunctionOrScript,
    /// Nowhere: the shell exits.
    ExitShell,
}

/// What executing a command gives.
#[derive(Clone, Copy, Debug, PartialEq, Eq, Structural)]
pub struct ExecutionResult {
    /// Where execution goes on.
    pub next_control_flow: ExecutionControlFlow,
    /// The exit code.
    pub exit_code: ExecutionExitCode,
}

/// The result of a command that ended with `code`.
pub open spec fn ended_with(code: ExecutionExitCode) -> ExecutionResult {
    ExecutionResult { next_control_flow: ExecutionControlFlow::Normal, exit_code: code }
}

impl ExecutionResult {
    /// The result of a command that ended with `code`.
    pub fn new(code: ExecutionExitCode) -> (r: ExecutionResult)
        ensures
            r == ended_with(code),
    {
        ExecutionResult { next_control_flow: ExecutionControlFlow::Normal, exit_code: code }
    }

    /// The result of a command that succeeded.
    pub fn success() -> (r: ExecutionResult)
        ensures
            r == ended_with(ExecutionExitCode::Success),
            r.exit_code.number() == 0,
    {
        ExecutionResult::new(ExecutionExitCode::Success)
    }
}

} // verus!
