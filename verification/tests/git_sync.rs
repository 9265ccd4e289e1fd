use pugdock::error::AppError;
use pugdock::git_sync::{
    checkpoint_message, checkpoint_step, conflict_side, git_command_args, git_outcome,
    git_spawn_error, history_args, init_step, init_target, merge_needs_review, object_at, parse_exclusions,
    parse_history, parse_status, pull_needs_merge, resolve_completes_merge, rewrite_gitignore,
    stage_object, update_exclusions, InitState, SyncStatus,
};

fn status(dirty: bool, behind: u32, conflicts: Vec<&str>, merging: bool) -> SyncStatus {
    SyncStatus {
        dirty,
        ahead: 0,
        behind,
        conflicts: conflicts.into_iter().map(String::from).collect(),
        merging,
    }
}

#[test]
fn git_failures_are_classified() {
    assert_eq!(git_outcome(true, "out".into(), "", "status"), Ok("out".to_string()));
    assert_eq!(
        git_outcome(false, String::new(), "fatal: Could not resolve host: github.com", "push"),
        Err(AppError::Offline)
    );
    assert_eq!(
        git_outcome(false, String::new(), "fatal: unable to access 'x'", "fetch"),
        Err(AppError::Offline)
    );
    assert_eq!(
        git_outcome(false, String::new(), "remote: Permission denied (403)", "push"),
        Err(AppError::GithubAuthExpired)
    );
    assert_eq!(
        git_outcome(false, String::new(), "  error: nothing\n", "commit"),
        Err(AppError::Other("git commit: error: nothing".into()))
    );
}

#[test]
fn git_spawn_errors() {
    assert_eq!(git_spawn_error(true, false, "x".into()), AppError::GitMissing);
    assert_eq!(git_spawn_error(false, true, "x".into()), AppError::FolderPermission);
    assert_eq!(git_spawn_error(false, false, "boom".into()), AppError::Other("boom".into()));
}

#[test]
fn git_runs_with_the_credential_helper() {
    let args = git_command_args(&vec!["status".to_string(), "--short".to_string()]);
    assert_eq!(
        args,
        vec![
            "-c",
            "credential.helper=!f() { echo username=x-access-token; echo password=$PUGDOCK_GH_TOKEN; }; f",
            "status",
            "--short",
        ]
    );
}

#[test]
fn porcelain_status_is_read() {
    let out = "# branch.oid abc\n# branch.head main\n# branch.ab +2 -3\n1 .M N... 100644 100644 100644 x y notes/a.md\nu UU N... 100644 100644 100644 100644 h1 h2 h3 notes/c.md\n";
    let s = parse_status(out, true);
    assert!(s.dirty);
    assert_eq!((s.ahead, s.behind), (2, 3));
    assert_eq!(s.conflicts, vec!["notes/c.md"]);
    assert!(s.merging);

    let clean = parse_status("# branch.ab +0 -0\n", false);
    assert!(!clean.dirty && clean.conflicts.is_empty() && !clean.merging);
    assert!(parse_status("? new.md", false).dirty);
    let bad = parse_status("# branch.ab +x -7\n", false);
    assert_eq!((bad.ahead, bad.behind), (0, 7));
}

#[test]
fn history_is_read() {
    let out = "abc\u{1f}First\u{1f}2024-01-01 10:00:00 +0000\nbad line\ndef\u{1f}Second\u{1f}2024-01-02\u{1f}extra";
    let h = parse_history(out);
    assert_eq!(h.len(), 2);
    assert_eq!((h[0].hash.as_str(), h[0].message.as_str()), ("abc", "First"));
    assert_eq!(h[0].date, "2024-01-01 10:00:00 +0000");
    assert_eq!((h[1].hash.as_str(), h[1].date.as_str()), ("def", "2024-01-02"));
    assert!(parse_history("").is_empty());
}

#[test]
fn history_arguments() {
    assert_eq!(history_args(None, None), vec!["log", "-50", "--pretty=format:%h\u{1f}%s\u{1f}%ci"]);
    assert_eq!(
        history_args(Some(5), Some("a.md".into())),
        vec!["log", "-5", "--pretty=format:%h\u{1f}%s\u{1f}%ci", "--", "a.md"]
    );
}

#[test]
fn exclusions_are_read_from_the_block() {
    let gi = ".pugdock/\n\n# pugdock:local-only\n/private\n  /drafts/x.md \n\n*.tmp\n";
    assert_eq!(parse_exclusions(gi), vec!["private", "drafts/x.md"]);
    assert!(parse_exclusions("*.tmp\n").is_empty());
    assert_eq!(parse_exclusions("# pugdock:local-only\n/a\n# other\n/b\n"), vec!["a"]);
}

#[test]
fn exclusion_list_updates() {
    assert_eq!(update_exclusions(vec!["a".into()], "b", true), vec!["a", "b"]);
    assert_eq!(update_exclusions(vec!["a".into()], "a", true), vec!["a"]);
    assert_eq!(update_exclusions(vec!["a".into(), "b".into(), "a".into()], "a", false), vec!["b"]);
}

#[test]
fn gitignore_block_is_rewritten_and_read_back() {
    let gi = ".pugdock/\n*.sqlite\n\n# pugdock:local-only\n/old\n";
    let list = vec!["new".to_string(), "dir/x".to_string()];
    let out = rewrite_gitignore(gi, &list);
    assert_eq!(out, ".pugdock/\n*.sqlite\n\n# pugdock:local-only\n/new\n/dir/x\n");
    assert_eq!(parse_exclusions(&out), list);
    assert_eq!(rewrite_gitignore(gi, &vec![]), ".pugdock/\n*.sqlite\n");
    // a comment after the block is kept
    let with_comment = "a\n# pugdock:local-only\n/x\n# mine\nb\n";
    assert_eq!(rewrite_gitignore(with_comment, &vec![]), "a\n# mine\nb\n");
}

#[test]
fn initialization_links_an_enclosing_repo() {
    assert_eq!(init_target("/w/sub", Some("/w\n".into())), ("/w".to_string(), false));
    assert_eq!(init_target("/w/sub", Some("/w/sub\n".into())), ("/w/sub".to_string(), true));
    assert_eq!(init_target("/w/sub", Some("/elsewhere".into())), ("/w/sub".to_string(), true));
    assert_eq!(init_target("/w/sub", None), ("/w/sub".to_string(), true));
}

#[test]
fn sync_flow_decisions() {
    assert_eq!(checkpoint_step(&status(true, 0, vec!["a"], true)), Err(AppError::SyncConflict));
    assert_eq!(checkpoint_step(&status(true, 0, vec![], false)), Ok(true));
    assert_eq!(checkpoint_step(&status(false, 0, vec![], false)), Ok(false));
    assert_eq!(checkpoint_message(None, "2024-01-01 10:00"), "pugdock: checkpoint 2024-01-01 10:00");
    assert_eq!(checkpoint_message(Some("mine".into()), "x"), "mine");
    assert!(pull_needs_merge(&status(false, 1, vec![], false)));
    assert!(!pull_needs_merge(&status(true, 0, vec![], false)));
    assert!(merge_needs_review(&status(false, 0, vec!["a"], true)));
    assert!(resolve_completes_merge(&status(false, 0, vec![], true)));
    assert!(!resolve_completes_merge(&status(false, 0, vec!["a"], true)));
    assert!(!resolve_completes_merge(&status(false, 0, vec![], false)));
    assert_eq!(conflict_side("local"), "--ours");
    assert_eq!(conflict_side("remote"), "--theirs");
    assert_eq!(stage_object(2, "a.md"), ":2:a.md");
    assert_eq!(stage_object(3, "dir/b.md"), ":3:dir/b.md");
    assert_eq!(object_at("abc123", "a.md"), "abc123:a.md");
}

#[test]
fn conflicted_paths_keep_their_spaces() {
    let s = parse_status("u UU N... 100644 100644 100644 100644 h1 h2 h3 my notes.md\n", true);
    assert_eq!(s.conflicts, vec!["my notes.md"]);
    assert!(parse_status("u UU N... 100644", false).conflicts.is_empty());
}

fn run_init(remote: Option<&str>, outcomes: &[(bool, bool)]) -> (InitState, Vec<Vec<String>>) {
    let mut state = InitState::Start;
    let mut commands = Vec::new();
    let mut last = (true, false);
    let mut i = 0;
    loop {
        let (next, action) = init_step(state, true, "Ada", "ada@example.com", remote, last.0, last.1);
        state = next;
        match action {
            Some(a) => commands.push(a),
            None => break,
        }
        last = outcomes.get(i).copied().unwrap_or((true, false));
        i += 1;
    }
    (state, commands)
}

#[test]
fn local_only_init_commits_and_never_syncs() {
    let (end, commands) = run_init(None, &[(true, false), (true, false), (true, false), (true, false), (true, true)]);
    assert_eq!(end, InitState::Done);
    let firsts: Vec<&str> = commands.iter().map(|c| c[0].as_str()).collect();
    assert_eq!(firsts, vec!["init", "config", "config", "add", "status", "commit"]);
    assert_eq!(commands[1], vec!["config", "user.name", "Ada"]);
    assert_eq!(commands[5], vec!["commit", "-m", "pugdock: initialize workspace"]);
}

#[test]
fn remote_init_falls_back_to_add_and_pushes() {
    let outcomes = [
        (true, false),
        (true, false),
        (true, false),
        (false, false),
        (true, false),
        (true, false),
        (true, false),
        (false, false),
        (true, false),
    ];
    let (end, commands) = run_init(Some("https://example.com/r.git"), &outcomes);
    assert_eq!(end, InitState::Done);
    assert_eq!(commands[3], vec!["remote", "set-url", "origin", "https://example.com/r.git"]);
    assert_eq!(commands[4], vec!["remote", "add", "origin", "https://example.com/r.git"]);
    assert_eq!(commands[7], vec!["fetch", "origin", "main"]);
    assert_eq!(commands[8], vec!["push", "-u", "origin", "main"]);
    assert_eq!(commands.len(), 9);
}

#[test]
fn a_failed_push_fails_the_init() {
    let (next, action) = init_step(InitState::Push, false, "a", "b", Some("u"), false, false);
    assert_eq!(next, InitState::Failed);
    assert!(action.is_none());
    let (next, action) = init_step(InitState::Start, false, "a", "b", Some("u"), true, false);
    assert_eq!(next, InitState::UserName);
    assert_eq!(action, Some(vec!["config".to_string(), "user.name".to_string(), "a".to_string()]));
}

#[test]
fn odd_block_entries_survive_a_rewrite() {
    let gi = "node_modules\n\n# pugdock:local-only\n/\n/ spaced\n/keep.md\n";
    let l0 = parse_exclusions(gi);
    assert_eq!(l0, vec!["", " spaced", "keep.md"]);
    let l1 = update_exclusions(l0, "new.md", true);
    let written = rewrite_gitignore(gi, &l1);
    assert_eq!(parse_exclusions(&written), l1);
    assert!(written.starts_with("node_modules\n"));
}
