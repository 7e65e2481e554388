use clippyd::command::parse_running_line;
use clippyd::command::remove_noise;
use clippyd::command::scan_lines;
use clippyd::command::strip_in_place;
use clippyd::command::extract_invocation;
use clippyd::errors::ToolError;

const NOISE: &str = "--error-format=json --json=diagnostic-rendered-ansi,artifacts,future-incompat";

#[test]
fn parses_quoted_example_line() {
    let line = " Running `CARGO_PKG_NAME=foo RUSTFLAGS=-Z /path/to/clippy-driver --edition=2021 src/lib.rs`";
    let (envs, cmd) = parse_running_line(line, "foo").expect("line should match");
    assert_eq!(envs, "CARGO_PKG_NAME=foo RUSTFLAGS=-Z");
    assert_eq!(cmd, "/path/to/clippy-driver --edition=2021 src/lib.rs");
}

#[test]
fn parses_realistic_line_and_strips_noise() {
    let line = "     Running `CARGO=/usr/bin/cargo CARGO_PKG_NAME=serde LD_LIBRARY_PATH=/lib /repo/target/debug/clippy-driver rustc --crate-name serde --edition=2018 --error-format=json --json=diagnostic-rendered-ansi,artifacts,future-incompat --cap-lints allow`";
    let (envs, cmd) = parse_running_line(line, "serde").expect("line should match");
    assert_eq!(envs, "CARGO=/usr/bin/cargo CARGO_PKG_NAME=serde LD_LIBRARY_PATH=/lib");
    assert_eq!(
        cmd,
        "/repo/target/debug/clippy-driver rustc --crate-name serde --edition=2018  --cap-lints allow"
    );
}

#[test]
fn ignores_dependency_invocations() {
    // The driver executable is named, but the marker carries another
    // package's name: the line must not match.
    let line = " Running `CARGO_PKG_NAME=bar RUSTFLAGS=-Z /path/to/clippy-driver --edition=2021 src/lib.rs`";
    assert!(parse_running_line(line, "foo").is_none());
}

#[test]
fn ignores_lines_without_running_prefix() {
    let line = "   Compiling CARGO_PKG_NAME=foo /path/to/clippy-driver";
    assert!(parse_running_line(line, "foo").is_none());
}

#[test]
fn ignores_lines_without_driver_token() {
    let line = " Running `CARGO_PKG_NAME=foo RUSTFLAGS=-Z /path/to/rustc --edition=2021`";
    assert!(parse_running_line(line, "foo").is_none());
}

#[test]
fn marker_value_must_match_exactly() {
    // `foobar` is not `foo`; prefixes must not match.
    let line = " Running `CARGO_PKG_NAME=foobar A=1 /path/to/clippy-driver x`";
    assert!(parse_running_line(line, "foo").is_none());
}

#[test]
fn noise_removal_is_idempotent_on_command_lines() {
    let cmd = format!("/d/clippy-driver rustc --edition=2021 {} --cap-lints allow", NOISE);
    let once = remove_noise(&cmd);
    let twice = remove_noise(&once);
    assert_eq!(once, twice);
    assert_eq!(once, "/d/clippy-driver rustc --edition=2021  --cap-lints allow");
}

#[test]
fn noise_removal_removes_every_occurrence() {
    let cmd = format!("a {} b {} c", NOISE, NOISE);
    assert_eq!(remove_noise(&cmd), "a  b  c");
}

#[test]
fn noise_removal_leaves_clean_input_unchanged() {
    let cmd = "/d/clippy-driver rustc --edition=2021";
    assert_eq!(remove_noise(cmd), cmd);
}

#[test]
fn scan_returns_first_match_after_skipping_nonmatching_lines() {
    let lines = vec![
        String::from("   Compiling serde v1.0.0"),
        String::from(" Running `CARGO_PKG_NAME=dep A=1 /d/clippy-driver dep.rs`"),
        String::from(" Running `CARGO_PKG_NAME=foo A=1 /d/clippy-driver lib.rs`"),
        String::from(" Running `CARGO_PKG_NAME=foo B=2 /d/clippy-driver other.rs`"),
    ];
    let (envs, cmd) = scan_lines(&lines, "foo").expect("a line matches");
    assert_eq!(envs, "CARGO_PKG_NAME=foo A=1");
    assert_eq!(cmd, "/d/clippy-driver lib.rs");
}

#[test]
fn scan_of_exhausted_stream_is_fatal() {
    let lines = vec![
        String::from("   Compiling serde v1.0.0"),
        String::from(" Running `CARGO_PKG_NAME=dep A=1 /d/clippy-driver dep.rs`"),
    ];
    assert_eq!(scan_lines(&lines, "foo"), Err(ToolError::TargetInvocationNotFound));
    let empty: Vec<String> = Vec::new();
    assert_eq!(scan_lines(&empty, "foo"), Err(ToolError::TargetInvocationNotFound));
}

#[test]
fn extraction_carries_directories_through() {
    let lines = vec![String::from(
        " Running `CARGO_PKG_NAME=foo A=1 /d/clippy-driver lib.rs`",
    )];
    let parts = extract_invocation(&lines, "foo", "/repo", "/lib/dir").expect("a line matches");
    assert_eq!(parts.envs, "CARGO_PKG_NAME=foo A=1");
    assert_eq!(parts.exec_and_args, "/d/clippy-driver lib.rs");
    assert_eq!(parts.clippy_cwd, "/repo");
    assert_eq!(parts.libdir, "/lib/dir");
}

#[test]
fn strip_in_place_removes_prefix_and_suffix_once() {
    let mut s = String::from(" `CARGO_PKG_NAME=foo");
    strip_in_place(&mut s, " `");
    assert_eq!(s, "CARGO_PKG_NAME=foo");

    let mut s = String::from("cmd args`");
    strip_in_place(&mut s, "`");
    assert_eq!(s, "cmd args");

    let mut s = String::from(" `both ends `");
    strip_in_place(&mut s, " `");
    assert_eq!(s, "both ends");

    let mut s = String::from("untouched");
    strip_in_place(&mut s, "`");
    assert_eq!(s, "untouched");

    // interior whitespace is preserved verbatim: this is not a generic trim
    let mut s = String::from("  two leading");
    strip_in_place(&mut s, " ");
    assert_eq!(s, " two leading");
}
