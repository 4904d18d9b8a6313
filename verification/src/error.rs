use vstd::prelude::*;

verus! {

/// The fatal errors of the pipeline.
///
/// Traversal failures are not represented here: they are diagnosed and
/// skipped, and never abort a run.
#[derive(Debug)]
pub enum SmeError {
    /// The pattern was to be used as a regular expression and did not compile.
    /// Carries the compiler's message.
    InvalidPattern(String),
    /// A spawned command failed to launch or did not exit cleanly. Carries
    /// the position of the failing path in the matched sequence, the command
    /// line that was run, and a description of the failure.
    ActionFailed { index: usize, command: String, message: String },
}

impl SmeError {
    /// True exactly on the configuration-error variant.
    pub open spec fn is_pattern_error(self) -> bool {
        self is InvalidPattern
    }
}

} // verus!
