use apex::command::{CommandOutput, CommandSpec, FixtureRunner};

#[test]
fn matches_exact_program() {
    let runner = FixtureRunner::new().on("cargo", CommandOutput::success(b"ok".to_vec()));
    let spec = CommandSpec::new("cargo", "/tmp");
    let result = runner.run_command(&spec).unwrap();
    assert_eq!(result.stdout, b"ok");
}

#[test]
fn matches_program_with_args() {
    let runner = FixtureRunner::new().on_args(
        "cargo",
        &["audit", "--json"],
        CommandOutput::success(b"{\"vulnerabilities\":{\"found\":0,\"list\":[]}}".to_vec()),
    );
    let spec = CommandSpec::new("cargo", "/tmp").args(&["audit", "--json"]);
    let result = runner.run_command(&spec).unwrap();
    assert_eq!(result.exit_code, 0);
}

#[test]
fn args_match_is_prefix() {
    let runner = FixtureRunner::new().on_args("cargo", &["test"], CommandOutput::success(b"pass".to_vec()));
    let spec = CommandSpec::new("cargo", "/tmp").args(&["test", "--lib", "-v"]);
    let result = runner.run_command(&spec).unwrap();
    assert_eq!(result.stdout, b"pass");
}

#[test]
fn unmatched_command_returns_error() {
    let runner = FixtureRunner::new();
    let spec = CommandSpec::new("unknown", "/tmp");
    let result = runner.run_command(&spec);
    assert!(result.is_err());
}

#[test]
fn specific_args_take_priority_over_program_only() {
    let runner = FixtureRunner::new()
        .on("cargo", CommandOutput::success(b"generic".to_vec()))
        .on_args("cargo", &["test"], CommandOutput::success(b"specific".to_vec()));
    let test_spec = CommandSpec::new("cargo", "/tmp").args(&["test"]);
    let result = runner.run_command(&test_spec).unwrap();
    assert_eq!(result.stdout, b"specific");
    let build_spec = CommandSpec::new("cargo", "/tmp").args(&["build"]);
    let result = runner.run_command(&build_spec).unwrap();
    assert_eq!(result.stdout, b"generic");
}

#[test]
fn failure_output() {
    let runner = FixtureRunner::new().on("bad", CommandOutput::failure(1, b"error".to_vec()));
    let spec = CommandSpec::new("bad", "/tmp");
    let result = runner.run_command(&spec).unwrap();
    assert_eq!(result.exit_code, 1);
    assert_eq!(result.stderr, b"error");
}

#[test]
fn default_creates_empty() {
    let runner = FixtureRunner::default();
    assert!(runner.fixtures.is_empty());
}

#[test]
fn later_fixtures_win_and_error_names_command() {
    let runner = FixtureRunner::new()
        .on("git", CommandOutput::success(b"first".to_vec()))
        .on("git", CommandOutput::success(b"second".to_vec()));
    let spec = CommandSpec::new("git", "/repo").args(&["log"]).timeout(5);
    assert_eq!(spec.timeout_ms, Some(5));
    assert_eq!(runner.run_command(&spec).unwrap().stdout, b"second");
    let other = CommandSpec::new("svn", "/repo").args(&["up", "-q"]);
    assert_eq!(runner.run_command(&other).unwrap_err(), "FixtureRunner: no fixture for `svn up -q`");
    let bare = CommandSpec::new("svn", "/repo");
    assert_eq!(runner.run_command(&bare).unwrap_err(), "FixtureRunner: no fixture for `svn `");
}
