//! How a run ends.

use vstd::prelude::*;

verus! {

/// Overall result of a run, ordered from least to most severe.
#[derive(Debug, Default, Clone, Copy, PartialEq, Eq, PartialOrd, Ord, Structural)]
pub enum RunStatus {
    /// Everything checked out and every operation succeeded.
    #[default]
    Clean,
    /// The configuration, the generated files or the resolved identity need
    /// attention.
    Issues,
    /// An operational failure occurred.
    Failure,
}

/// The place of a status in the order of severity, which is its exit code as
/// well.
pub open spec fn severity(status: RunStatus) -> u8 {
    match status {
        RunStatus::Clean => 0,
        RunStatus::Issues => 1,
        RunStatus::Failure => 2,
    }
}

/// The more severe of two statuses.
pub open spec fn worse(left: RunStatus, right: RunStatus) -> RunStatus {
    if severity(left) < severity(right) {
        right
    } else {
        left
    }
}

impl RunStatus {
    /// Combines independent outcomes, retaining the more severe status.
    pub fn combine(self, other: Self) -> (result: Self)
        ensures
            result == worse(self, other),
    {
        match (self, other) {
            (Self::Failure, _) | (_, Self::Failure) => Self::Failure,
            (Self::Issues, _) | (_, Self::Issues) => Self::Issues,
            (Self::Clean, Self::Clean) => Self::Clean,
        }
    }

    /// The exit code. These numbers are the contract of the command line:
    /// scripts branch on them.
    pub fn exit_code(self) -> (result: u8)
        ensures
            result == severity(self),
    {
        match self {
            RunStatus::Clean => 0,
            RunStatus::Issues => 1,
            RunStatus::Failure => 2,
        }
    }
}

/// Combining statuses retains the highest severity: the result is at least as
/// severe as both, it is one of them, and neither the order nor the grouping
/// matters.
pub proof fn law_combination_retains_the_highest_severity(a: RunStatus, b: RunStatus, c: RunStatus)
    ensures
        severity(worse(a, b)) >= severity(a),
        severity(worse(a, b)) >= severity(b),
        worse(a, b) == a || worse(a, b) == b,
        worse(a, b) == worse(b, a),
        worse(worse(a, b), c) == worse(a, worse(b, c)),
        worse(a, a) == a,
{
}

/// Different statuses have different exit codes.
pub proof fn law_exit_codes_differ(a: RunStatus, b: RunStatus)
    ensures
        severity(a) == severity(b) <==> a == b,
{
}

/// The exit codes: zero for a clean run, one for issues, two for a failure.
/// Two outcomes come to a failure if either is one, and to issues if neither
/// is a failure and either has issues.
pub proof fn law_exit_codes(a: RunStatus, b: RunStatus)
    ensures
        severity(RunStatus::Clean) == 0,
        severity(RunStatus::Issues) == 1,
        severity(RunStatus::Failure) == 2,
        worse(a, b) == RunStatus::Failure <==> a == RunStatus::Failure || b == RunStatus::Failure,
        worse(a, b) == RunStatus::Clean <==> a == RunStatus::Clean && b == RunStatus::Clean,
{
}

}
