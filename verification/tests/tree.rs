use pugdock::tree::{
    folder_inspection, forward_slashes, is_skipped_name, sort_tree, tree_rel_path, TreeEntry,
};

fn node(name: &str, is_dir: bool) -> TreeEntry {
    TreeEntry {
        name: name.to_string(),
        path: name.to_string(),
        is_dir,
        children: if is_dir { Some(vec![]) } else { None },
    }
}

#[test]
fn hidden_and_heavy_entries_are_skipped() {
    assert!(is_skipped_name(".git"));
    assert!(is_skipped_name(".DS_Store"));
    assert!(is_skipped_name("node_modules"));
    assert!(is_skipped_name("DerivedData"));
    assert!(!is_skipped_name("derivedData"));
    assert!(!is_skipped_name("notes"));
    assert!(!is_skipped_name(""));
}

#[test]
fn tree_paths_use_forward_slashes() {
    assert_eq!(forward_slashes("a\\b\\c.md"), "a/b/c.md");
    assert_eq!(tree_rel_path("/w/notes/a.md", "/w").as_deref(), Some("notes/a.md"));
    assert_eq!(tree_rel_path("/w", "/w").as_deref(), Some(""));
    assert_eq!(tree_rel_path("/x/a.md", "/w"), None);
}

#[test]
fn folders_come_first_then_names_ignoring_case() {
    let sorted = sort_tree(vec![
        node("b.md", false),
        node("Zeta", true),
        node("A.md", false),
        node("alpha", true),
        node("a.md", false),
    ]);
    let names: Vec<&str> = sorted.iter().map(|e| e.name.as_str()).collect();
    assert_eq!(names, vec!["alpha", "Zeta", "A.md", "a.md", "b.md"]);
    assert!(sort_tree(vec![]).is_empty());
}

#[test]
fn folder_inspection_cases() {
    let missing = folder_inspection(false, true, false);
    assert!(!missing.exists && missing.is_empty && !missing.is_git_repo);
    let full = folder_inspection(true, true, true);
    assert!(full.exists && !full.is_empty && full.is_git_repo);
    let empty = folder_inspection(true, false, false);
    assert!(empty.is_empty);
}
