use pugdock::workspace::registry_records;
use pugdock::error::AppError;
use pugdock::workspace::{
    adopt_registry, base64_encode, copy_candidate, create_workspace, delete_check,
    diagnostics_body, move_check, move_target, nested_workspace_paths, registry_abs,
    registry_entries, remove_workspace, rename_collision, repoint_workspace, resolve, set_active,
    sync_root, AppConfig, RegistryItem, WorkspaceEntry,
};
use pugdock::workspace::move_destination_check;
use std::path::{Path, PathBuf};

fn entry(path: &str, name: &str, managed: bool) -> WorkspaceEntry {
    WorkspaceEntry {
        path: path.to_string(),
        name: name.to_string(),
        repo_owner: None,
        repo_name: None,
        managed,
    }
}

fn config(workspaces: Vec<WorkspaceEntry>, active: Option<&str>) -> AppConfig {
    AppConfig {
        workspace_path: active.map(|s| s.to_string()),
        repo_owner: None,
        repo_name: None,
        workspaces,
        onboarding_done: true,
        settings: serde_json::Value::Null,
    }
}

#[test]
fn base64_matches_known_values() {
    assert_eq!(base64_encode(b""), "");
    assert_eq!(base64_encode(b"f"), "Zg==");
    assert_eq!(base64_encode(b"fo"), "Zm8=");
    assert_eq!(base64_encode(b"foobar"), "Zm9vYmFy");
}

#[test]
fn resolve_rejects_traversal() {
    let root = "/tmp/ws";
    assert!(resolve(root, "../etc/passwd").is_err());
    assert!(resolve(root, "notes/../../x").is_err());
    assert_eq!(
        PathBuf::from(resolve(root, "notes/a.md").unwrap()),
        Path::new(root).join("notes/a.md")
    );
}

#[test]
fn resolve_drops_leading_slashes_and_reports_the_error_kind() {
    assert_eq!(resolve("/tmp/ws", "//notes/a.md").unwrap(), "/tmp/ws/notes/a.md");
    assert_eq!(resolve("/tmp/ws/", "a.md").unwrap(), "/tmp/ws/a.md");
    assert_eq!(resolve("/tmp/ws", "..").unwrap_err(), AppError::PathOutsideWorkspace);
    // a name that merely contains dots is fine
    assert_eq!(resolve("/tmp/ws", "a..b/..c").unwrap(), "/tmp/ws/a..b/..c");
}

#[test]
fn registry_paths_join_like_std() {
    for (base, rel) in [("/a", "b"), ("/a/", "b"), ("/a", "/b"), ("/a", "b/c")] {
        assert_eq!(PathBuf::from(registry_abs(base, rel)), Path::new(base).join(rel));
    }
    assert_eq!(registry_abs("/a", ""), "/a");
}

#[test]
fn base64_length_law_on_values() {
    for n in 0..10usize {
        let data = vec![7u8; n];
        assert_eq!(base64_encode(&data).len(), 4 * ((n + 2) / 3));
    }
    // concatenation of whole 3-byte groups
    assert_eq!(
        base64_encode(b"foobar"),
        format!("{}{}", base64_encode(b"foo"), base64_encode(b"bar"))
    );
}

#[test]
fn create_workspace_registers_and_activates() {
    let mut cfg = config(vec![entry("/w/a", "a", true)], Some("/w/a"));
    cfg.repo_owner = Some("me".into());
    create_workspace(&mut cfg, "/w/notes");
    assert_eq!(cfg.workspaces.len(), 2);
    assert_eq!(cfg.workspaces[1].path, "/w/notes");
    assert_eq!(cfg.workspaces[1].name, "notes");
    assert!(cfg.workspaces[1].managed);
    assert_eq!(cfg.workspace_path.as_deref(), Some("/w/notes"));
    assert_eq!(cfg.repo_owner, None);
    // creating it again adds nothing
    create_workspace(&mut cfg, "/w/notes");
    assert_eq!(cfg.workspaces.len(), 2);
}

#[test]
fn add_workspace_requires_an_existing_opened_folder() {
    let mut cfg = config(vec![], None);
    let r = pugdock::workspace::add_workspace(&mut cfg, "/x/code", false, false);
    assert_eq!(r, Err(AppError::Other("Folder not found.".into())));
    assert!(cfg.workspaces.is_empty());
    assert!(pugdock::workspace::add_workspace(&mut cfg, "/x/code", false, true).is_ok());
    assert_eq!(cfg.workspaces[0].name, "code");
    assert!(!cfg.workspaces[0].managed);
    assert_eq!(cfg.workspace_path.as_deref(), Some("/x/code"));
}

#[test]
fn normalize_migrates_and_mirrors() {
    let mut cfg = config(vec![], Some("/w/old"));
    cfg.repo_owner = Some("me".into());
    cfg.repo_name = Some("notes".into());
    cfg.normalize();
    assert_eq!(cfg.workspaces.len(), 1);
    assert_eq!(cfg.workspaces[0].name, "notes");
    assert_eq!(cfg.workspaces[0].repo_owner.as_deref(), Some("me"));
    assert!(cfg.workspaces[0].managed);
    // idempotent
    cfg.normalize();
    assert_eq!(cfg.workspaces.len(), 1);
    assert_eq!(cfg.workspaces[0].repo_name.as_deref(), Some("notes"));
    // without a repo name the folder name is used
    let mut c2 = config(vec![], Some("/w/folder"));
    c2.normalize();
    assert_eq!(c2.workspaces[0].name, "folder");
}

#[test]
fn set_active_mirrors_the_entry() {
    let mut w = entry("/w/b", "b", true);
    w.repo_owner = Some("o".into());
    w.repo_name = Some("r".into());
    let mut cfg = config(vec![entry("/w/a", "a", true), w], Some("/w/a"));
    set_active(&mut cfg, "/w/b");
    assert_eq!(cfg.workspace_path.as_deref(), Some("/w/b"));
    assert_eq!(cfg.repo_owner.as_deref(), Some("o"));
    assert_eq!(cfg.repo_name.as_deref(), Some("r"));
    // an unknown path changes nothing
    set_active(&mut cfg, "/nope");
    assert_eq!(cfg.workspace_path.as_deref(), Some("/w/b"));
}

#[test]
fn remove_workspace_picks_the_next_active() {
    let mut cfg = config(
        vec![entry("/w/a", "a", true), entry("/w/b", "b", true), entry("/w/a", "a2", false)],
        Some("/w/a"),
    );
    remove_workspace(&mut cfg, "/w/a");
    assert_eq!(cfg.workspaces.len(), 1);
    assert_eq!(cfg.workspaces[0].path, "/w/b");
    assert_eq!(cfg.workspace_path.as_deref(), Some("/w/b"));
    remove_workspace(&mut cfg, "/w/b");
    assert!(cfg.workspaces.is_empty());
    assert_eq!(cfg.workspace_path, None);
}

#[test]
fn sync_root_is_the_topmost_managed_workspace() {
    let cfg = config(
        vec![
            entry("/w/notes/sub", "sub", true),
            entry("/code", "code", false),
            entry("/w/notes", "notes", true),
        ],
        None,
    );
    assert_eq!(sync_root(&cfg).as_deref(), Some("/w/notes"));
    let none = config(vec![entry("/code", "code", false)], None);
    assert_eq!(sync_root(&none), None);
}

#[test]
fn nested_paths_exclude_the_root_itself() {
    let cfg = config(
        vec![
            entry("/w", "w", true),
            entry("/w/sub", "sub", true),
            entry("/other", "o", true),
            entry("/w/deep/x", "x", false),
        ],
        None,
    );
    assert_eq!(nested_workspace_paths(&cfg, "/w"), vec!["/w/sub", "/w/deep/x"]);
}

#[test]
fn move_target_checks() {
    let cfg = config(vec![], None);
    assert_eq!(move_target(&cfg, "/x"), Err(AppError::NoWorkspace));
    let cfg = config(vec![entry("/w/a", "a", true)], Some("/w/a"));
    assert_eq!(move_target(&cfg, "/w/a"), Ok(None));
    assert_eq!(
        move_target(&cfg, "/w/a/inner"),
        Err(AppError::Other("The destination is inside the current workspace.".into()))
    );
    assert_eq!(move_target(&cfg, "/elsewhere"), Ok(Some("/w/a".to_string())));
}

#[test]
fn repoint_moves_the_entry() {
    let mut cfg = config(vec![entry("/w/a", "a", true), entry("/w/b", "b", true)], Some("/w/a"));
    repoint_workspace(&mut cfg, "/w/a", "/v/a");
    assert_eq!(cfg.workspaces[0].path, "/v/a");
    assert_eq!(cfg.workspaces[0].name, "a");
    assert_eq!(cfg.workspaces[1].path, "/w/b");
    assert_eq!(cfg.workspace_path.as_deref(), Some("/v/a"));
}

#[test]
fn registry_lists_managed_workspaces_under_the_root() {
    let cfg = config(
        vec![
            entry("/w", "Notes", true),
            entry("/w/work", "Work", true),
            entry("/w/code", "Code", false),
            entry("/elsewhere", "Far", true),
        ],
        None,
    );
    let r = registry_entries(&cfg, "/w");
    assert_eq!(
        r,
        vec![("Notes".to_string(), "".to_string()), ("Work".to_string(), "work".to_string())]
    );
    assert_eq!(registry_abs("/w", ""), "/w");
    assert_eq!(registry_abs("/w", "work"), "/w/work");
}

#[test]
fn adopting_the_registry_adds_and_never_removes() {
    let mut root = entry("/w", "Notes", true);
    root.repo_owner = Some("me".into());
    root.repo_name = Some("notes".into());
    let mut cfg = config(vec![root], Some("/w"));
    let items = vec![
        RegistryItem { abs: "/w".into(), is_dir: true, name: Some("Notes".into()) },
        RegistryItem { abs: "/w/work".into(), is_dir: true, name: None },
        RegistryItem { abs: "/w/gone".into(), is_dir: false, name: Some("Gone".into()) },
        RegistryItem { abs: "/w/work".into(), is_dir: true, name: Some("Dup".into()) },
    ];
    adopt_registry(&mut cfg, "/w", items);
    assert_eq!(cfg.workspaces.len(), 2);
    assert_eq!(cfg.workspaces[1].path, "/w/work");
    assert_eq!(cfg.workspaces[1].name, "Workspace");
    assert_eq!(cfg.workspaces[1].repo_owner.as_deref(), Some("me"));
    assert_eq!(cfg.workspaces[1].repo_name.as_deref(), Some("notes"));
    assert!(cfg.workspaces[1].managed);
    assert_eq!(cfg.workspace_path.as_deref(), Some("/w"));
}

#[test]
fn copies_are_named_after_their_file() {
    assert_eq!(copy_candidate("/w/notes/a.md", "/w", 1), "/w/notes/a copy.md");
    assert_eq!(copy_candidate("/w/notes/a.md", "/w", 2), "/w/notes/a copy 2.md");
    assert_eq!(copy_candidate("/w/README", "/w", 12), "/w/README copy 12");
    assert_eq!(copy_candidate("/w/.env", "/w", 1), "/w/.env copy");
}

#[test]
fn file_command_errors() {
    assert_eq!(rename_collision("a.md"), AppError::Other("\"a.md\" already exists.".into()));
    assert_eq!(delete_check("/w", "/w"), Err(AppError::PathOutsideWorkspace));
    assert_eq!(delete_check("/w/", "/w"), Err(AppError::PathOutsideWorkspace));
    assert_eq!(delete_check("/w/a", "/w"), Ok(()));
    assert_eq!(move_check("a.md", false, true, false), Err(AppError::Other("File not found.".into())));
    assert_eq!(
        move_check("a.md", true, false, false),
        Err(AppError::Other("Target workspace folder not found.".into()))
    );
    assert_eq!(
        move_check("a.md", true, true, true),
        Err(AppError::Other("\"a.md\" already exists in that workspace.".into()))
    );
    assert_eq!(move_check("a.md", true, true, false), Ok(()));
}

#[test]
fn diagnostics_report_lists_workspaces_without_secrets() {
    let mut w = entry("/w", "Notes", true);
    w.repo_owner = Some("me".into());
    let cfg = config(vec![w, entry("/code", "Code", false)], Some("/w"));
    let body = diagnostics_body(&cfg, "null", Some(Ok("## main\n".to_string())));
    assert_eq!(
        body,
        "active workspace: Some(\"/w\")\n  - Notes (managed) repo: Some(\"me\")/None\n  - Code (opened folder) repo: None/None\n\nsettings: null\n\ngit status:\n## main\n"
    );
    let body = diagnostics_body(&config(vec![], None), "{}", Some(Err("no git".to_string())));
    assert_eq!(body, "active workspace: None\n\nsettings: {}\n\ngit unavailable: no git\n");
}

#[test]
fn the_default_gitignore_keeps_local_state_and_secrets_out() {
    let lines: Vec<&str> = pugdock::workspace::GITIGNORE.lines().collect();
    for pattern in [".pugdock/", "*.sqlite", ".env", ".env.*", "!.env.example", "*.pem", "*.key", "credentials.*", ".DS_Store"] {
        assert!(lines.contains(&pattern), "{pattern}");
    }
    assert!(pugdock::workspace::GITIGNORE.starts_with("# PugDock local state"));
}

#[test]
fn move_destination_checks() {
    assert_eq!(move_destination_check(false, false), Ok(false));
    assert_eq!(move_destination_check(true, false), Ok(true));
    assert_eq!(
        move_destination_check(true, true),
        Err(AppError::Other("The destination folder already exists and is not empty.".into()))
    );
}

#[test]
fn registry_records_keep_entries_with_a_path() {
    let text = r#"[{"name":"Notes","path":"notes"},{"name":7,"path":""},{"name":"x"},{"path":"b c"}]"#;
    let r = registry_records(text).unwrap();
    assert_eq!(
        r,
        vec![
            ("notes".to_string(), Some("Notes".to_string())),
            ("".to_string(), None),
            ("b c".to_string(), None),
        ]
    );
    assert!(registry_records(r#"{"path":"a"}"#).is_none());
    assert!(registry_records("nope").is_none());
    assert_eq!(registry_records("[]").unwrap(), vec![]);
}
