use workflows::{
    CompositeRepository, DirectoryRepository, FileEntry, GitRepository, Workflow, WorkflowError,
    WorkflowRepository,
};

fn entry(path: &str, text: &str) -> FileEntry {
    FileEntry { path: path.to_string(), text: text.to_string() }
}

/// The three well-formed workflow files of the local fixture tree, plus a
/// file without a workflow extension, which loading must ignore.
fn fixture_files() -> Vec<FileEntry> {
    vec![
        entry(
            "tests/fixtures/workflows/curl.yaml",
            "name: Attach a header to an HTTP request with cURL\ncommand: curl --header \"{{header}}\" {{url}}\ntags: [curl]\n",
        ),
        entry(
            "tests/fixtures/workflows/nested/list.yml",
            "name: List files\ncommand: ls -la {{dir}}\ntags: [shell, files]\n",
        ),
        entry(
            "tests/fixtures/workflows/git-log.yaml",
            "name: Show recent commits\ncommand: git log --oneline -n {{count}}\ndescription: Shows the last commits\n",
        ),
        entry("tests/fixtures/workflows/README.md", "not a workflow\n"),
    ]
}

#[test]
fn test_load_from_dir() {
    let repo = DirectoryRepository::new("tests/fixtures/workflows".to_string(), &fixture_files());
    let workflows = repo.get_workflows();
    if let Ok(workflows) = workflows {
        assert_eq!(workflows.len(), 3);
    } else {
        panic!("Error loading workflows");
    }
}

#[test]
fn test_adding_should_add_new_workflow() {
    let mut repo =
        DirectoryRepository::new("tests/fixtures/workflows".to_string(), &fixture_files());

    if let Err(e) = repo.save_workflow(Workflow::new("test", "echo test")) {
        panic!("Error saving workflow: {:?}", e);
    }

    let workflows = repo.get_workflows();
    if let Ok(workflows) = workflows {
        assert_eq!(workflows.len(), 4);
    } else {
        panic!("Error loading workflows");
    }
}

#[test]
fn test_adding_and_delete_should_remove_workflow() {
    let mut repo =
        DirectoryRepository::new("tests/fixtures/workflows".to_string(), &fixture_files());

    if let Err(e) = repo.save_workflow(Workflow::new("test", "echo test")) {
        panic!("Error saving workflow: {:?}", e);
    }

    if let Err(e) = repo.delete_workflow("test") {
        panic!("Error saving workflow: {:?}", e);
    }

    let workflows = repo.get_workflows();

    if let Ok(workflows) = workflows {
        assert_eq!(workflows.len(), 3);
    } else {
        panic!("Error loading workflows");
    }

    let _ = repo.refresh(&fixture_files());
}

#[test]
fn test_malformed_file_does_not_block_siblings() {
    let files = vec![
        entry("a.yaml", "name: first\ncommand: echo one\n"),
        entry("broken.yaml", "name: [unclosed\n"),
        entry("schema-broken.yaml", "name: no command here\n"),
        entry("b.yml", "name: second\ncommand: echo two\n"),
    ];
    let repo = DirectoryRepository::new("root".to_string(), &files);
    let loaded = repo.get_workflows().unwrap();
    assert_eq!(loaded.len(), 2);
    assert_eq!(loaded[0].name, "first");
    assert_eq!(loaded[1].name, "second");
}

#[test]
fn test_extension_filter_ignores_other_files() {
    let files = vec![
        entry("notes.txt", "name: n\ncommand: c\n"),
        entry("workflow.yaml.bak", "name: n\ncommand: c\n"),
        entry(".yaml", "name: hidden\ncommand: c\n"),
        entry("real.yaml", "name: real\ncommand: c\n"),
    ];
    let repo = DirectoryRepository::new("root".to_string(), &files);
    let loaded = repo.get_workflows().unwrap();
    assert_eq!(loaded.len(), 1);
    assert_eq!(loaded[0].name, "real");
}

#[test]
fn test_saving_twice_keeps_both_entries() {
    let mut repo = DirectoryRepository::new("root".to_string(), &Vec::new());
    repo.save_workflow(Workflow::new("dup", "echo one")).unwrap();
    repo.save_workflow(Workflow::new("dup", "echo two")).unwrap();
    let loaded = repo.get_workflows().unwrap();
    assert_eq!(loaded.len(), 2);
    assert_eq!(loaded[0].command, "echo one");
    assert_eq!(loaded[1].command, "echo two");
}

#[test]
fn test_delete_removes_every_entry_with_the_name() {
    let mut repo = DirectoryRepository::new("root".to_string(), &Vec::new());
    repo.save_workflow(Workflow::new("dup", "echo one")).unwrap();
    repo.save_workflow(Workflow::new("keep", "echo keep")).unwrap();
    repo.save_workflow(Workflow::new("dup", "echo two")).unwrap();
    repo.delete_workflow("dup").unwrap();
    let loaded = repo.get_workflows().unwrap();
    assert_eq!(loaded.len(), 1);
    assert_eq!(loaded[0].name, "keep");
}

#[test]
fn test_delete_of_absent_name_is_a_noop() {
    let mut repo = DirectoryRepository::new("tests/fixtures/workflows".to_string(), &fixture_files());
    assert!(repo.delete_workflow("no such workflow").is_ok());
    assert_eq!(repo.get_workflows().unwrap().len(), 3);
}

#[test]
fn test_get_workflow_finds_exact_name_only() {
    let repo = DirectoryRepository::new("tests/fixtures/workflows".to_string(), &fixture_files());
    let found = repo.get_workflow("List files").unwrap();
    assert_eq!(found.command, "ls -la {{dir}}");
    match repo.get_workflow("List") {
        Err(WorkflowError::NotFound(s)) => assert_eq!(s, "List"),
        other => panic!("expected NotFound, got {:?}", other),
    }
}

#[test]
fn test_query_matches_name_command_and_tags() {
    let repo = DirectoryRepository::new("tests/fixtures/workflows".to_string(), &fixture_files());
    let by_name = repo.query_workflows("header").unwrap();
    assert_eq!(by_name.len(), 1);
    assert_eq!(by_name[0].name, "Attach a header to an HTTP request with cURL");

    let by_command = repo.query_workflows("git log").unwrap();
    assert_eq!(by_command.len(), 1);
    assert_eq!(by_command[0].name, "Show recent commits");

    let by_tag = repo.query_workflows("curl").unwrap();
    assert_eq!(by_tag.len(), 1);

    let several = repo.query_workflows("{{").unwrap();
    assert_eq!(several.len(), 3);
}

#[test]
fn test_query_is_case_sensitive_and_reports_not_found() {
    let repo = DirectoryRepository::new("tests/fixtures/workflows".to_string(), &fixture_files());
    match repo.query_workflows("CURL") {
        Err(WorkflowError::NotFound(s)) => assert_eq!(s, "CURL"),
        other => panic!("expected NotFound, got {:?}", other),
    }
}

fn upstream_fixture() -> GitRepository {
    let files = vec![
        entry(
            "tests/fixtures/github/warpdotdev/dup.yaml",
            "name: dup\ncommand: echo upstream\n",
        ),
        entry(
            "tests/fixtures/github/warpdotdev/remote.yaml",
            "name: remote only\ncommand: echo remote\ntags: [remote]\n",
        ),
    ];
    GitRepository::new(
        "https://github.com/warpdotdev/workflows.git",
        "main",
        "tests/fixtures/github/warpdotdev".to_string(),
        &files,
    )
}

fn composite_fixture() -> CompositeRepository {
    let local_files = vec![
        entry("local/dup.yaml", "name: dup\ncommand: echo local\n"),
        entry("local/here.yaml", "name: local only\ncommand: echo here\n"),
    ];
    let local = DirectoryRepository::new("local".to_string(), &local_files);
    CompositeRepository::new(local, upstream_fixture())
}

#[test]
fn test_git_repository_delegates_to_its_directory_store() {
    let mut repo = upstream_fixture();
    assert_eq!(repo.get_workflows().unwrap().len(), 2);
    assert_eq!(repo.get_workflow("dup").unwrap().command, "echo upstream");
    repo.save_workflow(Workflow::new("added", "echo added")).unwrap();
    assert_eq!(repo.get_workflows().unwrap().len(), 3);
    repo.delete_workflow("added").unwrap();
    assert_eq!(repo.get_workflows().unwrap().len(), 2);
}

#[test]
fn test_composite_prefers_local_entry() {
    let repo = composite_fixture();
    let found = repo.get_workflow("dup").unwrap();
    assert_eq!(found.command, "echo local");
}

#[test]
fn test_composite_falls_back_to_upstream() {
    let repo = composite_fixture();
    let found = repo.get_workflow("remote only").unwrap();
    assert_eq!(found.command, "echo remote");
    match repo.get_workflow("nowhere") {
        Err(WorkflowError::NotFound(s)) => assert_eq!(s, "nowhere"),
        other => panic!("expected NotFound, got {:?}", other),
    }
}

#[test]
fn test_composite_lists_local_before_upstream() {
    let repo = composite_fixture();
    let all = repo.get_workflows().unwrap();
    assert_eq!(all.len(), 4);
    assert_eq!(all[0].command, "echo local");
    assert_eq!(all[1].command, "echo here");
    assert_eq!(all[2].command, "echo upstream");
    assert_eq!(all[3].command, "echo remote");
}

#[test]
fn test_composite_query_concatenates_and_tolerates_empty() {
    let repo = composite_fixture();
    let dups = repo.query_workflows("dup").unwrap();
    assert_eq!(dups.len(), 2);
    assert_eq!(dups[0].command, "echo local");
    assert_eq!(dups[1].command, "echo upstream");

    let nothing = repo.query_workflows("matches nothing at all").unwrap();
    assert!(nothing.is_empty());
}

#[test]
fn test_refresh_replaces_the_loaded_entries() {
    let mut repo = DirectoryRepository::new("root".to_string(), &Vec::new());
    assert_eq!(repo.get_workflows().unwrap().len(), 0);
    let files = vec![entry("a.yaml", "name: a\ncommand: c\n")];
    repo.refresh(&files).unwrap();
    let loaded = repo.get_workflows().unwrap();
    assert_eq!(loaded.len(), 1);
    assert_eq!(loaded[0].name, "a");
}

#[test]
fn test_composite_refresh_reloads_both_stores() {
    let mut repo = composite_fixture();
    let local_files = vec![entry("l.yaml", "name: l\ncommand: c\n")];
    let upstream_files: Vec<FileEntry> = Vec::new();
    repo.refresh(&local_files, &upstream_files).unwrap();
    let all = repo.get_workflows().unwrap();
    assert_eq!(all.len(), 1);
    assert_eq!(all[0].name, "l");
}

#[test]
fn test_composite_mutations_reach_only_the_local_store() {
    let mut repo = composite_fixture();
    repo.save_workflow(Workflow::new("fresh", "echo fresh")).unwrap();
    let all = repo.get_workflows().unwrap();
    assert_eq!(all.len(), 5);
    assert_eq!(all[2].name, "fresh");

    repo.delete_workflow("dup").unwrap();
    let found = repo.get_workflow("dup").unwrap();
    assert_eq!(found.command, "echo upstream");
}
