//! Dispatch plans: which interpreter a resolved command runs through, and
//! the argument vector handed to it.

use clix::command::{create_command, walk_repo, BoundArg, ClixCommand, ParsedInvocation};
use clix::execution::{
    execute_command, execute_os_command, execute_python_command, handle_arguments,
    ExecutionError, Platform,
};
use clix::config::{ArgumentEntry, CommandConfiguration};
use clix::listing::{DirListing, FileListing};
use clix::repo::load_directory;

fn file(name: &str, content: &str) -> FileListing {
    FileListing { name: name.to_string(), content: content.to_string() }
}

const RUN_TOML: &str = "command_name = \"run\"\n\n[[arguments]]\nname = \"target\"\nrequired = true\n\n[[arguments]]\nname = \"verbose\"\nrequired = false\n";

fn resolve(script: &str, config: Option<&str>, bindings: Vec<BoundArg>) -> ClixCommand {
    let mut files = vec![file(script, "echo run\n")];
    if let Some(text) = config {
        files.push(file("run.toml", text));
    }
    let listing = DirListing { name: "repo".to_string(), files, dirs: vec![] };
    let repo = load_directory(vec!["repo".to_string()], &listing);
    let invocation = ParsedInvocation { chain: vec!["run".to_string()], bindings };
    walk_repo(&invocation, repo.root_dir()).expect("the script should resolve")
}

fn bind(name: &str, value: &str) -> BoundArg {
    BoundArg { name: name.to_string(), value: value.to_string() }
}

#[test]
fn bash_plan_on_linux() {
    let command = resolve(
        "run.sh",
        Some(RUN_TOML),
        vec![bind("target", "prod"), bind("verbose", "yes")],
    );
    let plan = execute_command(command, Platform::Linux).expect("a bash plan");
    assert_eq!(plan.interpreter, "bash");
    assert_eq!(
        plan.script.path(),
        &vec!["repo".to_string(), "run.sh".to_string()]
    );
    assert_eq!(plan.arguments, vec!["prod".to_string(), "yes".to_string()]);
}

#[test]
fn optional_argument_skipped_in_plan() {
    let command = resolve("run.sh", Some(RUN_TOML), vec![bind("target", "prod")]);
    let plan = execute_command(command, Platform::Linux).expect("a bash plan");
    assert_eq!(plan.arguments, vec!["prod".to_string()]);
}

#[test]
fn shell_script_unhandled_on_windows() {
    let command = resolve("run.sh", None, vec![]);
    match execute_command(command, Platform::Windows) {
        Err(ExecutionError::UnhandledFileType(ext)) => assert_eq!(ext, "sh"),
        other => panic!("expected unhandled file type, got {other:?}"),
    }
}

#[test]
fn powershell_plan_on_windows() {
    let command = resolve("run.ps1", None, vec![]);
    let plan = execute_command(command, Platform::Windows).expect("a powershell plan");
    assert_eq!(plan.interpreter, "powershell");
    assert!(plan.arguments.is_empty());

    let command = resolve("run.ps1", None, vec![]);
    match execute_os_command(&command, Platform::Linux) {
        Err(ExecutionError::UnhandledFileType(ext)) => assert_eq!(ext, "ps1"),
        other => panic!("expected unhandled file type, got {other:?}"),
    }
}

#[test]
fn python_plan_on_both_platforms() {
    let command = resolve("run.py", None, vec![]);
    let plan = execute_command(command, Platform::Linux).expect("a python plan");
    assert_eq!(plan.interpreter, "python");

    let command = resolve("run.py", None, vec![]);
    let plan = execute_command(command, Platform::Windows).expect("a python plan");
    assert_eq!(plan.interpreter, "python");

    let command = resolve("run.py", None, vec![]);
    let plan = execute_python_command(&command).expect("a python plan");
    assert_eq!(plan.interpreter, "python");
}

#[test]
fn handle_arguments_collects_in_declaration_order() {
    let config = CommandConfiguration {
        command_name: "run".to_string(),
        arguments: Some(vec![
            ArgumentEntry { name: "first".to_string(), required: true },
            ArgumentEntry { name: "second".to_string(), required: false },
        ]),
    };
    let bindings = vec![bind("second", "b"), bind("first", "a")];
    let argv = handle_arguments(&bindings, vec!["base".to_string()], &config)
        .expect("all required arguments are bound");
    assert_eq!(argv, vec!["base".to_string(), "a".to_string(), "b".to_string()]);
}

#[test]
fn handle_arguments_reports_missing_required() {
    let config = CommandConfiguration {
        command_name: "run".to_string(),
        arguments: Some(vec![ArgumentEntry { name: "target".to_string(), required: true }]),
    };
    match handle_arguments(&vec![], vec![], &config) {
        Err(ExecutionError::MissingRequiredArgument(name)) => assert_eq!(name, "target"),
        other => panic!("expected missing required argument, got {other:?}"),
    }
}

#[test]
fn grammar_mirrors_tree() {
    let listing = DirListing {
        name: "repo".to_string(),
        files: vec![file("run.sh", ""), file("run.toml", RUN_TOML)],
        dirs: vec![DirListing {
            name: "git".to_string(),
            files: vec![file("commit.sh", "")],
            dirs: vec![],
        }],
    };
    let repo = load_directory(vec!["repo".to_string()], &listing);
    let grammar = create_command(repo.root_dir());

    assert_eq!(grammar.name, "repo");
    assert!(grammar.arguments.is_empty());
    let names: Vec<String> = grammar.subcommands.iter().map(|c| c.name.clone()).collect();
    assert_eq!(names, vec!["run".to_string(), "git".to_string()]);

    let run = &grammar.subcommands[0];
    assert_eq!(run.arguments.len(), 2);
    assert_eq!(run.arguments[0].name, "target");
    assert!(run.arguments[0].required);
    assert!(run.subcommands.is_empty());

    let git = &grammar.subcommands[1];
    assert!(git.arguments.is_empty());
    assert_eq!(git.subcommands[0].name, "commit");
}

#[test]
fn grammar_skips_duplicate_names() {
    // Two scripts with the same stem become one subcommand: the first, as
    // resolution would also pick the first.
    let listing = DirListing {
        name: "repo".to_string(),
        files: vec![file("commit.sh", ""), file("commit.py", "")],
        dirs: vec![],
    };
    let repo = load_directory(vec!["repo".to_string()], &listing);
    let grammar = create_command(repo.root_dir());

    let names: Vec<String> = grammar.subcommands.iter().map(|c| c.name.clone()).collect();
    assert_eq!(names, vec!["commit".to_string()]);

    // The skipped sibling is diagnosed, not silently dropped.
    assert!(repo
        .diagnostics()
        .iter()
        .any(|d| d == "duplicate command name: commit"));
}

#[test]
fn grammar_skips_reserved_help_name() {
    // `help` belongs to the parser layer: a script or directory of that
    // name gets no subcommand, with a diagnostic each.
    let listing = DirListing {
        name: "repo".to_string(),
        files: vec![file("help.sh", ""), file("run.sh", "")],
        dirs: vec![DirListing {
            name: "help".to_string(),
            files: vec![file("misc.sh", "")],
            dirs: vec![],
        }],
    };
    let repo = load_directory(vec!["repo".to_string()], &listing);
    let grammar = create_command(repo.root_dir());

    let names: Vec<String> = grammar.subcommands.iter().map(|c| c.name.clone()).collect();
    assert_eq!(names, vec!["run".to_string()]);

    let reserved = repo
        .diagnostics()
        .iter()
        .filter(|d| d.as_str() == "reserved command name: help")
        .count();
    assert_eq!(reserved, 2);
}
