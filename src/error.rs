use vstd::prelude::*;

verus! {

/// Why an operation of this layer failed.
#[derive(Debug)]
pub enum CoreError {
    /// An executable that an operation needs is not where it was looked for.
    BinaryNotFound { path: String },
    /// A child process could not be started.
    ProcessSpawnFailed { message: String },
    /// A child process ended with a failure status; `code` is its exit code, where
    /// it has one, and `output` what it printed.
    ProcessExitedNonZero { code: Option<i32>, output: String },
    /// A child process answered with text that could not be read.
    MalformedResponse { message: String },
    /// An argument of the caller was refused before anything was run.
    InvalidArgument { message: String },
    /// Shared state was left unusable by an earlier failure.
    StateUnavailable,
    /// A file could not be read or written.
    Io { message: String },
}

} // verus!
