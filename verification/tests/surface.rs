use clippyd::checkout::fetch_url;
use clippyd::checkout::git_ref_from_str;
use clippyd::command::ClippyDriverCommandParts;
use clippyd::errors::ToolError;
use clippyd::manifest::assert_clippy_cwd;
use clippyd::manifest::cargo_pkg_name;
use clippyd::manifest::manifest_checks_for_profile;
use clippyd::manifest::verify_release_debug_policy;
use clippyd::manifest::ManifestSummary;
use clippyd::profile::cargo_build_args;
use clippyd::profile::cargo_clippy_path;
use clippyd::profile::profile_from_string;
use clippyd::profile::Profile;
use clippyd::replay::display_command;
use clippyd::replay::perf_invocation;
use clippyd::text::trim_str;
use clippyd::text::trim_trailing;

fn summary(release_debug: Option<bool>) -> ManifestSummary {
    ManifestSummary {
        package_name: Some(String::from("clippy")),
        has_profile_section: true,
        has_release_section: true,
        release_debug_info_enabled: release_debug,
    }
}

#[test]
fn unknown_profile_name_is_rejected_before_any_work() {
    assert_eq!(profile_from_string("staging"), Err(ToolError::UnknownProfileName));
    assert_eq!(profile_from_string(""), Err(ToolError::UnknownProfileName));
    assert_eq!(profile_from_string("Release"), Err(ToolError::UnknownProfileName));
}

#[test]
fn known_profile_names_are_mapped() {
    assert_eq!(profile_from_string("dev"), Ok(Profile::Dev));
    assert_eq!(profile_from_string("debug"), Ok(Profile::Dev));
    assert_eq!(profile_from_string("release"), Ok(Profile::Release));
}

#[test]
fn debug_policy_violation_without_debug_key() {
    assert_eq!(
        verify_release_debug_policy(&summary(None)),
        Err(ToolError::DebugPolicyViolation)
    );
    assert_eq!(
        verify_release_debug_policy(&summary(Some(false))),
        Err(ToolError::DebugPolicyViolation)
    );
    assert_eq!(verify_release_debug_policy(&summary(Some(true))), Ok(()));
    let no_release = ManifestSummary {
        package_name: Some(String::from("clippy")),
        has_profile_section: true,
        has_release_section: false,
        release_debug_info_enabled: None,
    };
    assert_eq!(
        verify_release_debug_policy(&no_release),
        Err(ToolError::DebugPolicyViolation)
    );
}

#[test]
fn escape_hatch_suppresses_debug_policy_check() {
    assert_eq!(
        manifest_checks_for_profile(Profile::Release, false, &summary(None)),
        Err(ToolError::DebugPolicyViolation)
    );
    assert_eq!(manifest_checks_for_profile(Profile::Release, true, &summary(None)), Ok(()));
    assert_eq!(manifest_checks_for_profile(Profile::Dev, false, &summary(None)), Ok(()));
}

#[test]
fn package_name_is_read_or_missing() {
    assert_eq!(cargo_pkg_name(&summary(None)), Ok(String::from("clippy")));
    let anon = ManifestSummary {
        package_name: None,
        has_profile_section: false,
        has_release_section: false,
        release_debug_info_enabled: None,
    };
    assert_eq!(cargo_pkg_name(&anon), Err(ToolError::PackageNameMissing));
}

#[test]
fn working_directory_check_needs_clippy_package() {
    let good = "[package]\nname = \"clippy\"\nversion = \"0.1.0\"\n";
    assert_eq!(assert_clippy_cwd(good), Ok(()));
    let bad = "[package]\nname = \"serde\"\n";
    assert_eq!(assert_clippy_cwd(bad), Err(ToolError::WorkingDirectoryMismatch));
}

#[test]
fn git_refs_split_at_first_colon() {
    let g = git_ref_from_str("y21:branch1").expect("has a colon");
    assert_eq!(g.user, "y21");
    assert_eq!(g.branch, "branch1");
    let g = git_ref_from_str("a:b:c").expect("has a colon");
    assert_eq!(g.user, "a");
    assert_eq!(g.branch, "b:c");
    assert_eq!(
        git_ref_from_str("nocolon").map(|g| g.user),
        Err(ToolError::GitRefMissingColon)
    );
}

#[test]
fn fetch_url_names_the_fork() {
    let g = git_ref_from_str("y21:branch1").expect("has a colon");
    assert_eq!(fetch_url(&g), "https://github.com/y21/rust-clippy");
}

#[test]
fn build_args_follow_the_profile() {
    assert_eq!(
        cargo_build_args(Profile::Dev),
        vec!["b", "--bin", "cargo-clippy", "--bin", "clippy-driver"]
    );
    assert_eq!(
        cargo_build_args(Profile::Release),
        vec!["b", "--bin", "cargo-clippy", "--bin", "clippy-driver", "-r"]
    );
}

#[test]
fn integration_binary_path_follows_the_profile() {
    assert_eq!(cargo_clippy_path("/repo", Profile::Dev), "/repo/target/debug/cargo-clippy");
    assert_eq!(
        cargo_clippy_path("/repo", Profile::Release),
        "/repo/target/release/cargo-clippy"
    );
}

#[test]
fn display_command_joins_with_one_space() {
    let parts = ClippyDriverCommandParts {
        envs: String::from("A=1 B=2"),
        exec_and_args: String::from("/d/clippy-driver lib.rs"),
        clippy_cwd: String::from("/repo"),
        libdir: String::from("/lib"),
    };
    assert_eq!(display_command(&parts), "A=1 B=2 /d/clippy-driver lib.rs");
}

#[test]
fn perf_invocation_prefixes_the_profiler() {
    let parts = ClippyDriverCommandParts {
        envs: String::from("A=1"),
        exec_and_args: String::from("/d/clippy-driver lib.rs"),
        clippy_cwd: String::from("/repo"),
        libdir: String::from("/lib"),
    };
    let args = vec![String::from("-F"), String::from("99")];
    assert_eq!(
        perf_invocation(&parts, &args),
        "A=1 perf record -o /repo/perf.data -F 99 /d/clippy-driver lib.rs"
    );
    let none: Vec<String> = Vec::new();
    assert_eq!(
        perf_invocation(&parts, &none),
        "A=1 perf record -o /repo/perf.data /d/clippy-driver lib.rs"
    );
}

#[test]
fn trimming_helpers_behave_like_std() {
    assert_eq!(trim_str("   Running x  "), "Running x");
    assert_eq!(trim_str(""), "");
    assert_eq!(trim_str(" \t\r\n"), "");
    assert_eq!(trim_trailing("/some/lib/dir\n"), "/some/lib/dir");
    assert_eq!(trim_trailing("unchanged"), "unchanged");
}
