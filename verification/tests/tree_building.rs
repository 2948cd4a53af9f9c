//! Building the command tree from a directory listing: structure, hidden
//! entries, unsupported extensions, and the path entity itself.

use clix::file_type::{CommandFileType, FileTypeSpecifier, PlatformSpecificFileType};
use clix::listing::{DirListing, FileListing};
use clix::repo::{
    get_last_path_component_as_string, load_directory, ClixPath, DirectoryType,
};
use clix::text::{contains_substring, extension_of_name, starts_with_dot, stem_of_name, str_eq};

fn file(name: &str, content: &str) -> FileListing {
    FileListing { name: name.to_string(), content: content.to_string() }
}

fn dir(name: &str, files: Vec<FileListing>, dirs: Vec<DirListing>) -> DirListing {
    DirListing { name: name.to_string(), files, dirs }
}

#[test]
fn builds_structure_exactly() {
    let listing = dir(
        "root",
        vec![file("a.sh", ""), file("b.py", "")],
        vec![
            dir("one", vec![file("c.ps1", "")], vec![]),
            dir("two", vec![], vec![dir("deep", vec![file("d.sh", "")], vec![])]),
        ],
    );
    let repo = load_directory(vec!["root".to_string()], &listing);
    let root = repo.root_dir();

    assert_eq!(root.get_command_name(), "root");
    let file_names: Vec<String> = root.files().iter().map(|f| f.get_file_name()).collect();
    assert_eq!(file_names, vec!["a".to_string(), "b".to_string()]);

    let dir_names: Vec<String> =
        root.sub_dirs().iter().map(|d| d.get_command_name()).collect();
    assert_eq!(dir_names, vec!["one".to_string(), "two".to_string()]);

    let one = &root.sub_dirs()[0];
    assert_eq!(one.files()[0].get_file_name(), "c");

    let two = &root.sub_dirs()[1];
    assert!(two.files().is_empty());
    let deep = &two.sub_dirs()[0];
    assert_eq!(deep.get_command_name(), "deep");
    assert_eq!(deep.files()[0].get_file_name(), "d");
    assert_eq!(
        deep.files()[0].file_path().path(),
        &vec![
            "root".to_string(),
            "two".to_string(),
            "deep".to_string(),
            "d.sh".to_string()
        ]
    );

    assert!(repo.diagnostics().is_empty());
}

#[test]
fn hidden_entries_never_appear() {
    let listing = dir(
        "root",
        vec![file(".env.sh", ""), file("run.sh", "")],
        vec![
            dir(".git", vec![file("hook.sh", "")], vec![]),
            dir("jobs", vec![file(".secret.sh", ""), file("go.sh", "")], vec![]),
        ],
    );
    let repo = load_directory(vec!["root".to_string()], &listing);
    let root = repo.root_dir();

    let file_names: Vec<String> = root.files().iter().map(|f| f.get_file_name()).collect();
    assert_eq!(file_names, vec!["run".to_string()]);

    let dir_names: Vec<String> =
        root.sub_dirs().iter().map(|d| d.get_command_name()).collect();
    assert_eq!(dir_names, vec!["jobs".to_string()]);

    let jobs = &root.sub_dirs()[0];
    let job_files: Vec<String> = jobs.files().iter().map(|f| f.get_file_name()).collect();
    assert_eq!(job_files, vec!["go".to_string()]);

    // Hidden entries are skipped silently: no diagnostic for them.
    assert!(repo.diagnostics().is_empty());
}

#[test]
fn unsupported_extension_dropped_with_diagnostic() {
    let listing = dir(
        "root",
        vec![file("notes.txt", "scratch"), file("run.sh", "")],
        vec![],
    );
    let repo = load_directory(vec!["root".to_string()], &listing);

    let file_names: Vec<String> =
        repo.root_dir().files().iter().map(|f| f.get_file_name()).collect();
    assert_eq!(file_names, vec!["run".to_string()]);

    assert_eq!(repo.diagnostics().len(), 1);
    assert_eq!(repo.diagnostics()[0], "unhandled file type: notes.txt");
}

#[test]
fn directory_type_classifies_hidden_names() {
    assert!(matches!(
        DirectoryType::from_directory_name(".git"),
        DirectoryType::Configuration
    ));
    assert!(matches!(DirectoryType::from_directory_name("git"), DirectoryType::Command));
}

#[test]
fn path_entity_names() {
    let file_path = ClixPath::new(
        vec!["home".to_string(), "repo".to_string(), "commit.sh".to_string()],
        true,
    );
    assert!(file_path.is_file());
    assert_eq!(file_path.name(), "commit");
    assert_eq!(file_path.extension(), "sh");
    assert_eq!(get_last_path_component_as_string(&file_path), "commit.sh");
    assert!(matches!(
        file_path.file_type(),
        Some(CommandFileType::Platform(PlatformSpecificFileType::Bash))
    ));

    let dir_path = ClixPath::new(vec!["home".to_string(), "repo".to_string()], false);
    assert!(!dir_path.is_file());
    assert_eq!(dir_path.name(), "repo");
    assert!(dir_path.file_type().is_none());
}

#[test]
fn file_type_classification() {
    assert!(matches!(
        CommandFileType::from_extension("sh"),
        CommandFileType::Platform(PlatformSpecificFileType::Bash)
    ));
    assert!(matches!(
        CommandFileType::from_extension("ps1"),
        CommandFileType::Platform(PlatformSpecificFileType::Powershell)
    ));
    assert!(matches!(CommandFileType::from_extension("py"), CommandFileType::Python));
    match CommandFileType::from_extension("txt") {
        CommandFileType::Unhandled(ext) => assert_eq!(ext, "txt"),
        other => panic!("expected unhandled, got {other:?}"),
    }
    // The platform classifier alone does not know Python.
    match PlatformSpecificFileType::from_extension("py") {
        CommandFileType::Unhandled(ext) => assert_eq!(ext, "py"),
        other => panic!("expected unhandled, got {other:?}"),
    }
}

#[test]
fn repo_handle_wraps_tree() {
    let root = clix::repo::ClixDirectory::new(
        ClixPath::new(vec!["root".to_string()], false),
        vec![],
        vec![],
    );
    assert!(matches!(root.dir_type(), DirectoryType::Command));
    let repo = clix::repo::ClixRepo::new(root);
    assert_eq!(repo.root_dir().get_command_name(), "root");
    assert!(repo.diagnostics().is_empty());
}

#[test]
fn command_file_construction() {
    let path = ClixPath::new(vec!["repo".to_string(), "deploy.sh".to_string()], true);
    let siblings = vec![
        file("deploy.sh", "echo deploy\n"),
        file("deploy.toml", "command_name = \"deploy\"\n"),
    ];
    let command_file = clix::repo::ClixFile::new(path, &siblings);
    assert_eq!(command_file.get_file_name(), "deploy");
    assert_eq!(command_file.get_file_extension(), "sh");
    assert!(command_file.file_type().is_supported());
    let config = command_file.get_config().expect("deploy.toml is its configuration");
    assert_eq!(config.command_name, "deploy");

    let bare = clix::repo::ClixFile::new_with_config(
        ClixPath::new(vec!["x".to_string(), "run.sh".to_string()], true),
        None,
        None,
    );
    assert_eq!(bare.get_command_name(), "run");
    assert!(bare.get_config().is_none());
}

#[test]
fn name_splitting_edge_cases() {
    assert_eq!(stem_of_name("a.tar.gz"), "a.tar");
    assert_eq!(extension_of_name("a.tar.gz"), "gz");
    assert_eq!(stem_of_name(".bashrc"), ".bashrc");
    assert_eq!(extension_of_name(".bashrc"), "");
    assert_eq!(stem_of_name("plain"), "plain");
    assert_eq!(extension_of_name("plain"), "");
    assert_eq!(stem_of_name(".env.sh"), ".env");
    assert_eq!(extension_of_name(".env.sh"), "sh");

    assert!(starts_with_dot(".hidden"));
    assert!(!starts_with_dot("visible"));
    assert!(!starts_with_dot(""));

    assert!(str_eq("same", "same"));
    assert!(!str_eq("same", "other"));

    assert!(contains_substring("boshrc.sh", "bosh"));
    assert!(contains_substring("anything", ""));
    assert!(!contains_substring("bosh", "boshrc"));
}
