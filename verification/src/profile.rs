use vstd::prelude::*;

use crate::errors::ToolError;
use crate::text::str_eq;

verus! {

/// The build profile chosen once per invocation by the caller. It selects
/// the build flags and the output directory that holds the freshly built
/// binaries.
#[derive(Debug, Clone, Copy, PartialEq, Eq, Structural)]
pub enum Profile {
    Dev,
    Release,
}

/// Maps a profile name given at the command surface to a profile: `dev` and
/// `debug` select the development profile, `release` the release profile,
/// and anything else is rejected before any work starts.
pub fn profile_from_string(s: &str) -> (r: Result<Profile, ToolError>)
    ensures
        (s@ == "dev"@ || s@ == "debug"@) ==> r == Ok::<Profile, ToolError>(Profile::Dev),
        s@ == "release"@ ==> r == Ok::<Profile, ToolError>(Profile::Release),
        !(s@ == "dev"@ || s@ == "debug"@ || s@ == "release"@) ==> r == Err::<Profile, ToolError>(
            ToolError::UnknownProfileName,
        ),
{
    proof {
        reveal_strlit("dev");
        reveal_strlit("debug");
        reveal_strlit("release");
        assert("dev"@.len() == 3);
        assert("debug"@.len() == 5);
        assert("release"@.len() == 7);
    }
    if str_eq(s, "dev") || str_eq(s, "debug") {
        Ok(Profile::Dev)
    } else if str_eq(s, "release") {
        Ok(Profile::Release)
    } else {
        Err(ToolError::UnknownProfileName)
    }
}

/// The arguments handed to the build tool to build the two linter binaries
/// under the given profile.
pub fn cargo_build_args(profile: Profile) -> (r: Vec<String>)
    ensures
        profile == Profile::Dev ==> r.deep_view() =~~= seq![
            "b"@,
            "--bin"@,
            "cargo-clippy"@,
            "--bin"@,
            "clippy-driver"@,
        ],
        profile == Profile::Release ==> r.deep_view() =~~= seq![
            "b"@,
            "--bin"@,
            "cargo-clippy"@,
            "--bin"@,
            "clippy-driver"@,
            "-r"@,
        ],
{
    let mut v: Vec<String> = Vec::new();
    v.push(String::from_str("b"));
    v.push(String::from_str("--bin"));
    v.push(String::from_str("cargo-clippy"));
    v.push(String::from_str("--bin"));
    v.push(String::from_str("clippy-driver"));
    match profile {
        Profile::Dev => {},
        Profile::Release => {
            v.push(String::from_str("-r"));
        },
    }
    v
}

/// The path of the freshly built build-tool-integration binary: the target
/// directory selected by the profile, under the toolchain project root.
pub fn cargo_clippy_path(clippy_cwd: &str, profile: Profile) -> (r: String)
    ensures
        profile == Profile::Dev ==> r@ == clippy_cwd@ + "/target/debug/cargo-clippy"@,
        profile == Profile::Release ==> r@ == clippy_cwd@ + "/target/release/cargo-clippy"@,
{
    let mut p = String::from_str(clippy_cwd);
    match profile {
        Profile::Dev => p.append("/target/debug/cargo-clippy"),
        Profile::Release => p.append("/target/release/cargo-clippy"),
    }
    p
}

} // verus!
