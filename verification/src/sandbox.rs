use vstd::prelude::*;

pub mod executor;

pub use executor::{Interpreter, PythonOutcome, SandboxExecutor, SandboxStep};

verus! {

/// The limits that code is run under.
#[derive(Debug, Clone)]
pub struct SandboxConfig {
    pub memory_limit: usize,
    pub timeout_seconds: u64,
    pub allowed_files: Vec<String>,
}

/// What a run of code gave: its output, its error output and its exit code.
#[derive(Debug, Clone)]
pub struct ExecutionResult {
    pub stdout: String,
    pub stderr: String,
    pub exit_code: i32,
}

/// A result as the contracts see it.
pub struct ExecutionResultView {
    pub stdout: Seq<char>,
    pub stderr: Seq<char>,
    pub exit_code: i32,
}

impl View for ExecutionResult {
    type V = ExecutionResultView;

    open spec fn view(&self) -> ExecutionResultView {
        ExecutionResultView {
            stdout: self.stdout@,
            stderr: self.stderr@,
            exit_code: self.exit_code,
        }
    }
}

/// Why the sandbox gave no result.
#[derive(Debug, Clone, PartialEq, Eq)]
pub enum SandboxError {
    /// The interpreter could not be started; `reason` says why.
    Launch { reason: String },
    /// The code ran longer than it may.
    Timeout,
}

/// An error of the sandbox as the contracts see it.
pub enum SandboxErrorView {
    Launch { reason: Seq<char> },
    Timeout,
}

impl View for SandboxError {
    type V = SandboxErrorView;

    open spec fn view(&self) -> SandboxErrorView {
        match self {
            SandboxError::Launch { reason } => SandboxErrorView::Launch { reason: reason@ },
            SandboxError::Timeout => SandboxErrorView::Timeout,
        }
    }
}

} // verus!
