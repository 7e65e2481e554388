use vstd::prelude::*;

use crate::errors::ToolError;
use crate::profile::Profile;
use crate::text::contains_seq;
use crate::text::str_contains;

verus! {

/// What the library reads out of a project descriptor: the package name, if
/// a `package` section names one, and the shape of the release profile
/// section. `release_debug_info_enabled` is `Some(b)` exactly when the
/// release profile section carries a boolean `debug` key with value `b`,
/// and `None` when the key is absent or not a boolean.
#[derive(Debug, Clone)]
pub struct ManifestSummary {
    pub package_name: Option<String>,
    pub has_profile_section: bool,
    pub has_release_section: bool,
    pub release_debug_info_enabled: Option<bool>,
}

/// The descriptor explicitly enables debug info for release builds.
pub open spec fn release_debug_policy_ok(m: ManifestSummary) -> bool {
    m.has_profile_section && m.has_release_section && m.release_debug_info_enabled == Some(true)
}

/// The debug-info policy check: a release build is only meaningful for
/// profiling when the descriptor pins `debug = true` for the release
/// profile, so a descriptor that lacks the profile section, the release
/// section, or the explicit boolean flag is a policy violation.
pub fn verify_release_debug_policy(m: &ManifestSummary) -> (r: Result<(), ToolError>)
    ensures
        release_debug_policy_ok(*m) ==> r == Ok::<(), ToolError>(()),
        !release_debug_policy_ok(*m) ==> r == Err::<(), ToolError>(ToolError::DebugPolicyViolation),
{
    if m.has_profile_section && m.has_release_section && matches!(
        m.release_debug_info_enabled,
        Some(true)
    ) {
        Ok(())
    } else {
        Err(ToolError::DebugPolicyViolation)
    }
}

/// Decides whether the policy check applies before a build: it concerns
/// release builds only, and the escape hatch (an environment-controlled
/// override, at the user's risk) skips it entirely.
pub fn manifest_checks_for_profile(profile: Profile, escape_hatch: bool, m: &ManifestSummary) -> (r:
    Result<(), ToolError>)
    ensures
        (profile != Profile::Release || escape_hatch || release_debug_policy_ok(*m)) ==> r
            == Ok::<(), ToolError>(()),
        !(profile != Profile::Release || escape_hatch || release_debug_policy_ok(*m)) ==> r
            == Err::<(), ToolError>(ToolError::DebugPolicyViolation),
{
    if matches!(profile, Profile::Release) && !escape_hatch {
        verify_release_debug_policy(m)
    } else {
        Ok(())
    }
}

/// The package name of the project the descriptor belongs to, used to
/// recognize which traced invocation line is the target's own.
pub fn cargo_pkg_name(m: &ManifestSummary) -> (r: Result<String, ToolError>)
    ensures
        m.package_name matches Some(n) ==> r matches Ok(out) && out@ == n@,
        m.package_name is None ==> r == Err::<String, ToolError>(ToolError::PackageNameMissing),
{
    match &m.package_name {
        Some(n) => Ok(n.clone()),
        None => Err(ToolError::PackageNameMissing),
    }
}

/// The upfront working-directory validation: the tool only runs from within
/// the linter toolchain's own project, recognized by its descriptor naming
/// the expected package.
pub fn assert_clippy_cwd(manifest_text: &str) -> (r: Result<(), ToolError>)
    ensures
        contains_seq(manifest_text@, "name = \"clippy\""@) ==> r == Ok::<(), ToolError>(()),
        !contains_seq(manifest_text@, "name = \"clippy\""@) ==> r == Err::<(), ToolError>(
            ToolError::WorkingDirectoryMismatch,
        ),
{
    if str_contains(manifest_text, "name = \"clippy\"") {
        Ok(())
    } else {
        Err(ToolError::WorkingDirectoryMismatch)
    }
}

} // verus!
