//! Configuration discovery and parsing: which sibling serves as a file's
//! configuration record, and what the record's text parses to.

use clix::config::get_command_configuration;
use clix::listing::{DirListing, FileListing};
use clix::repo::{load_directory, ClixRepo};

fn file(name: &str, content: &str) -> FileListing {
    FileListing { name: name.to_string(), content: content.to_string() }
}

fn repo_of(files: Vec<FileListing>) -> ClixRepo {
    let listing = DirListing { name: "repo".to_string(), files, dirs: vec![] };
    load_directory(vec!["repo".to_string()], &listing)
}

const DEPLOY_TOML: &str = "command_name = \"deploy\"\n\n[[arguments]]\nname = \"target\"\nrequired = true\n\n[[arguments]]\nname = \"dry_run\"\nrequired = false\n";

#[test]
fn config_found_for_containing_sibling() {
    let repo = repo_of(vec![file("deploy.sh", "echo deploy\n"), file("deploy.toml", DEPLOY_TOML)]);

    let deploy = &repo.root_dir().files()[0];
    assert_eq!(deploy.get_file_name(), "deploy");
    let config = deploy.get_config().expect("deploy.toml should be its configuration");
    assert_eq!(config.command_name, "deploy");
    let arguments = config.arguments.expect("arguments should be declared");
    assert_eq!(arguments.len(), 2);
    assert_eq!(arguments[0].name, "target");
    assert!(arguments[0].required);
    assert_eq!(arguments[1].name, "dry_run");
    assert!(!arguments[1].required);
}

#[test]
fn config_absent_without_sibling() {
    let repo = repo_of(vec![file("deploy.sh", "echo deploy\n")]);

    let deploy = &repo.root_dir().files()[0];
    assert!(deploy.get_config().is_none());
    assert!(deploy.try_get_config().is_none());
    assert!(deploy.get_config_file().is_none());
}

#[test]
fn malformed_config_treated_as_absent() {
    let repo = repo_of(vec![file("deploy.sh", "echo deploy\n"), file("deploy.toml", "[[[ not toml")]);

    let deploy = &repo.root_dir().files()[0];
    assert_eq!(deploy.get_file_name(), "deploy");
    assert!(deploy.get_config().is_none());
}

#[test]
fn containment_heuristic_matches_loosely() {
    // `boshrc.sh` contains `bosh`, so the heuristic takes it as the
    // configuration of `bosh.sh` — the documented false-positive risk.
    let boshrc = "command_name = \"boshrc\"\n";
    let repo = repo_of(vec![file("bosh.sh", "echo bosh\n"), file("boshrc.sh", boshrc)]);

    let bosh = &repo.root_dir().files()[0];
    assert_eq!(bosh.get_file_name(), "bosh");
    let config = bosh.get_config().expect("boshrc.sh parses as a configuration record");
    assert_eq!(config.command_name, "boshrc");
    assert!(config.arguments.is_none());
}

#[test]
fn parse_configuration_exactly() {
    let config = get_command_configuration(DEPLOY_TOML).expect("the record should parse");
    assert_eq!(config.command_name, "deploy");
    let arguments = config.arguments.expect("arguments present");
    assert_eq!(arguments.len(), 2);
    assert_eq!(arguments[0].name, "target");
    assert!(arguments[0].required);

    // No `arguments` table: a record with none declared.
    let bare = get_command_configuration("command_name = \"x\"\n").expect("should parse");
    assert_eq!(bare.command_name, "x");
    assert!(bare.arguments.is_none());

    // A record without `command_name` does not parse.
    assert!(get_command_configuration("other = 1\n").is_none());

    // An argument entry without `required` spoils the whole record.
    assert!(get_command_configuration(
        "command_name = \"x\"\n\n[[arguments]]\nname = \"a\"\n"
    )
    .is_none());

    // Not TOML at all.
    assert!(get_command_configuration("}{").is_none());
}

#[test]
fn record_invariant_enforced() {
    // A duplicate declaration spoils the record.
    assert!(get_command_configuration(
        "command_name = \"x\"\n\n[[arguments]]\nname = \"a\"\nrequired = true\n\n[[arguments]]\nname = \"a\"\nrequired = false\n"
    )
    .is_none());
    // So does the reserved name `help`...
    assert!(get_command_configuration(
        "command_name = \"x\"\n\n[[arguments]]\nname = \"help\"\nrequired = false\n"
    )
    .is_none());
    // ...a name that reads as a flag prefix...
    assert!(get_command_configuration(
        "command_name = \"x\"\n\n[[arguments]]\nname = \"-v\"\nrequired = false\n"
    )
    .is_none());
    // ...and an empty name.
    assert!(get_command_configuration(
        "command_name = \"x\"\n\n[[arguments]]\nname = \"\"\nrequired = false\n"
    )
    .is_none());
}

#[test]
fn first_matching_sibling_wins() {
    // Two candidates contain the stem `run`; enumeration order decides.
    let first = "command_name = \"first\"\n";
    let second = "command_name = \"second\"\n";
    let repo = repo_of(vec![
        file("run.sh", "echo run\n"),
        file("run_a.toml", first),
        file("run_b.toml", second),
    ]);

    let run = &repo.root_dir().files()[0];
    let config = run.get_config().expect("a configuration should be found");
    assert_eq!(config.command_name, "first");
}

#[test]
fn hidden_sibling_never_serves_as_config() {
    // `.deployrc.toml` contains `deploy` but is hidden, so it is filtered
    // out before discovery ever sees it.
    let hidden = "command_name = \"hidden\"\n";
    let repo = repo_of(vec![file("deploy.sh", "echo deploy\n"), file(".deployrc.toml", hidden)]);

    let deploy = &repo.root_dir().files()[0];
    assert!(deploy.get_config().is_none());
}
