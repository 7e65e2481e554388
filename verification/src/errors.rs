use vstd::prelude::*;

verus! {

/// The failure taxonomy of the toolchain wrapper.
///
/// Every fallible operation of the library reports one of these variants;
/// the callers around the library attach human-readable context when
/// surfacing them.
#[derive(Debug, Clone, Copy, PartialEq, Eq, Structural)]
pub enum ToolError {
    /// A spawned external tool exited with a non-zero status.
    ProcessFailed,
    /// The project descriptor could not be read or parsed at all.
    ManifestReadFailed,
    /// The project descriptor lacks a `package` section with a name.
    PackageNameMissing,
    /// A release build was requested but the descriptor does not enable
    /// debug info for the release profile.
    DebugPolicyViolation,
    /// The verbose build log was exhausted without the target's traced
    /// invocation line; there is no partial result to return.
    TargetInvocationNotFound,
    /// The profile name given at the command surface is not recognized.
    UnknownProfileName,
    /// The current directory's descriptor does not identify the expected
    /// toolchain project.
    WorkingDirectoryMismatch,
    /// A `user:branch` reference lacks the separating colon.
    GitRefMissingColon,
}

} // verus!
