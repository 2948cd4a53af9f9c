//! Resolving invocations against a repository tree, through the real
//! parser and directly through the resolver.

use clix::command::{walk_repo, BoundArg, ParsedInvocation, ResolutionError};
use clix::listing::{DirListing, FileListing};
use clix::parser::{clap_command_from_str, clap_file_from_str};
use clix::repo::{load_directory, ClixRepo};

fn file(name: &str, content: &str) -> FileListing {
    FileListing { name: name.to_string(), content: content.to_string() }
}

fn dir(name: &str, files: Vec<FileListing>, dirs: Vec<DirListing>) -> DirListing {
    DirListing { name: name.to_string(), files, dirs }
}

const COMMIT_TOML: &str = "command_name = \"commit\"\n\n[[arguments]]\nname = \"message\"\nrequired = false\n";

/// The repository the resolution tests run against: `test/bosh.sh` and
/// `git/commit.sh` with its sibling `git/commit.toml`.
fn engage_repo() -> ClixRepo {
    let listing = dir(
        "engage",
        vec![],
        vec![
            dir("test", vec![file("bosh.sh", "echo bosh\n")], vec![]),
            dir(
                "git",
                vec![file("commit.sh", "git commit -m \"$1\"\n"), file("commit.toml", COMMIT_TOML)],
                vec![],
            ),
        ],
    );
    load_directory(vec!["engage".to_string()], &listing)
}

fn strings(input: &[&str]) -> Vec<String> {
    input.iter().map(|s| s.to_string()).collect()
}

#[test]
pub fn test_help_command() {
    let repo = engage_repo();

    let input = ["clix", "help"].to_vec();
    let command_result = clap_file_from_str(&repo, strings(&input));
    assert!(command_result.is_none())
}

#[test]
pub fn test_bosh() {
    let repo = engage_repo();

    let input = ["clix", "test", "bosh"].to_vec();
    let command_result = clap_file_from_str(&repo, strings(&input));
    assert!(command_result.is_some())
}

#[test]
pub fn test_commit_help() {
    let repo = engage_repo();

    let input = ["clix", "git", "commit", "--help"].to_vec();
    let command_result = clap_file_from_str(&repo, strings(&input));
    assert!(command_result.is_none())
}

#[test]
fn commit_with_message_resolves_with_binding() {
    let repo = engage_repo();

    let resolved = clap_file_from_str(&repo, strings(&["tool", "git", "commit", "--message", "fix"]))
        .expect("commit should resolve");
    assert_eq!(resolved.file().get_file_name(), "commit");
    let bound = resolved.command();
    assert_eq!(bound.len(), 1);
    assert_eq!(bound[0].name, "message");
    assert_eq!(bound[0].value, "fix");
}

#[test]
fn commit_without_message_resolves_without_binding() {
    let repo = engage_repo();

    let resolved = clap_file_from_str(&repo, strings(&["tool", "git", "commit"]))
        .expect("commit should resolve");
    assert_eq!(resolved.file().get_file_name(), "commit");
    assert!(resolved.command().is_empty());
}

#[test]
fn unknown_leaf_resolves_to_nothing() {
    let repo = engage_repo();

    assert!(clap_file_from_str(&repo, strings(&["tool", "git", "push"])).is_none());
}

#[test]
fn resolution_is_deterministic() {
    let repo = engage_repo();

    let first = clap_file_from_str(&repo, strings(&["tool", "git", "commit"]))
        .expect("commit should resolve");
    let second = clap_file_from_str(&repo, strings(&["tool", "git", "commit"]))
        .expect("commit should resolve");
    assert_eq!(first.file().get_file_name(), second.file().get_file_name());
    assert_eq!(first.file().file_path().path(), second.file().file_path().path());
}

const DEPLOY_TOML: &str = "command_name = \"deploy\"\n\n[[arguments]]\nname = \"target\"\nrequired = true\n";

fn deploy_repo() -> ClixRepo {
    let listing = dir(
        "repo",
        vec![file("deploy.sh", "echo deploy\n"), file("deploy.toml", DEPLOY_TOML)],
        vec![],
    );
    load_directory(vec!["repo".to_string()], &listing)
}

#[test]
fn missing_required_argument_is_reported() {
    let repo = deploy_repo();

    let invocation = ParsedInvocation { chain: vec!["deploy".to_string()], bindings: vec![] };
    match walk_repo(&invocation, repo.root_dir()) {
        Err(ResolutionError::MissingRequiredArgument { name, command }) => {
            assert_eq!(name, "target");
            assert_eq!(command, vec!["repo".to_string(), "deploy.sh".to_string()]);
        },
        other => panic!("expected a missing-required-argument failure, got {other:?}"),
    }
}

#[test]
fn bound_required_argument_resolves() {
    let repo = deploy_repo();

    let invocation = ParsedInvocation {
        chain: vec!["deploy".to_string()],
        bindings: vec![BoundArg { name: "target".to_string(), value: "prod".to_string() }],
    };
    let resolved = walk_repo(&invocation, repo.root_dir()).expect("deploy should resolve");
    assert_eq!(resolved.file().get_file_name(), "deploy");
    assert_eq!(resolved.command().len(), 1);
}

#[test]
fn unknown_subdirectory_fails_resolution() {
    let repo = engage_repo();

    let invocation = ParsedInvocation {
        chain: vec!["svn".to_string(), "commit".to_string()],
        bindings: vec![],
    };
    match walk_repo(&invocation, repo.root_dir()) {
        Err(ResolutionError::NoSuchCommand) => {},
        other => panic!("expected no-such-command, got {other:?}"),
    }
}

#[test]
fn clap_file_method_returns_the_file() {
    let repo = engage_repo();

    let file = repo
        .clap_file(strings(&["clix", "git", "commit"]))
        .expect("commit should resolve");
    assert_eq!(file.get_file_name(), "commit");
    assert!(repo.clap_file(strings(&["clix", "git", "push"])).is_none());
}

#[test]
fn parser_never_aborts_on_missing_required() {
    // Through the full parser pipeline an invocation that omits the
    // required argument is turned away, not crashed on.
    let repo = deploy_repo();

    assert!(clap_file_from_str(&repo, strings(&["tool", "deploy"])).is_none());
    assert!(
        clap_file_from_str(&repo, strings(&["tool", "deploy", "--target", "prod"])).is_some()
    );
}

#[test]
fn pipeline_reports_missing_required() {
    let repo = deploy_repo();

    let error = clap_command_from_str(&repo, strings(&["tool", "deploy"]))
        .expect_err("target is missing");
    assert_eq!(
        error.message(),
        "missing required argument target for command repo/deploy.sh"
    );
}

#[test]
fn pipeline_reports_no_such_command() {
    let repo = engage_repo();

    let error = clap_command_from_str(&repo, strings(&["tool", "git", "push"]))
        .expect_err("push does not exist");
    assert_eq!(error.message(), "no such command");
}

#[test]
fn resolution_error_messages() {
    let repo = deploy_repo();

    let invocation = ParsedInvocation { chain: vec!["deploy".to_string()], bindings: vec![] };
    let error = walk_repo(&invocation, repo.root_dir()).expect_err("target is missing");
    assert_eq!(
        error.message(),
        "missing required argument target for command repo/deploy.sh"
    );
    assert_eq!(ResolutionError::NoSuchCommand.message(), "no such command");
}

#[test]
fn empty_chain_fails_resolution() {
    let repo = engage_repo();

    let invocation = ParsedInvocation { chain: vec![], bindings: vec![] };
    assert!(matches!(
        walk_repo(&invocation, repo.root_dir()),
        Err(ResolutionError::NoSuchCommand)
    ));
}
