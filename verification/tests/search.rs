use pugdock::search::{
    context_query, fnv, index_file_name, indexable, merge_hits, search_query,
};

#[test]
fn fnv1a_known_values() {
    assert_eq!(fnv(""), 0xcbf29ce484222325);
    assert_eq!(fnv("a"), 0xaf63dc4c8601ec8c);
    assert_eq!(fnv("foobar"), 0x85944171f73967e8);
}

#[test]
fn opened_folder_index_names() {
    assert_eq!(index_file_name(""), "cbf29ce484222325.sqlite");
    assert_eq!(index_file_name("a"), "af63dc4c8601ec8c.sqlite");
}

#[test]
fn which_files_are_indexed() {
    assert!(indexable("notes/a.md", 10));
    assert!(indexable("notes/A.MD", 2_000_000));
    assert!(!indexable("notes/a.md", 2_000_001));
    assert!(!indexable("photo.png", 10));
    assert!(!indexable("Makefile", 10));
    assert!(!indexable(".md", 10));
    assert!(indexable("x.example", 1));
}

#[test]
fn fts_queries_quote_every_word() {
    assert_eq!(search_query("rust  notes"), "\"rust\"* \"notes\"*");
    assert_eq!(search_query("say \"hi\""), "\"say\"* \"hi\"*");
    assert_eq!(search_query("   "), "");
    assert_eq!(context_query("a b"), "\"a\" OR \"b\"");
    assert_eq!(context_query("\""), "\"\"");
}

#[test]
fn hits_merge_names_first_without_duplicates() {
    let hits = merge_hits(
        vec!["a.md".into(), "b.md".into()],
        vec![
            ("b.md".into(), "in b".into()),
            ("c.md".into(), "in c".into()),
            ("c.md".into(), "again".into()),
        ],
    );
    let paths: Vec<&str> = hits.iter().map(|h| h.path.as_str()).collect();
    assert_eq!(paths, vec!["a.md", "b.md", "c.md"]);
    assert_eq!(hits[1].snippet, "");
    assert_eq!(hits[2].snippet, "in c");
}
