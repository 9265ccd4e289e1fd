use pugdock::theme::{manifest_themes, theme_include};
use pugdock::theme::{stored_theme, stored_theme_value};
use pugdock::error::AppError;
use pugdock::theme::{
    imported_or_error, included_path, is_json_theme, merge_theme, parse_jsonc, slugify,
    sort_themes, stored_theme_meta, strip_jsonc, theme_file_name, theme_meta, zip_join, ThemeDoc,
    ThemeMeta,
};
use pugdock::theme::{missing_in_package, no_themes, not_a_package, strip_bom};
use serde_json::Value;

#[test]
fn jsonc_strips_comments_and_trailing_commas() {
    let src = r#"{
            // line comment
            "a": "value // not a comment",
            /* block */ "b": [1, 2,],
        }"#;
    let v: Value = serde_json::from_str(&strip_jsonc(src)).unwrap();
    assert_eq!(v["a"], "value // not a comment");
    assert_eq!(v["b"][1], 2);
}

#[test]
fn zip_paths_resolve() {
    assert_eq!(zip_join("extension", "./themes/x.json"), "extension/themes/x.json");
    assert_eq!(zip_join("extension/themes", "../base.json"), "extension/base.json");
}

#[test]
fn slugs() {
    assert_eq!(slugify("Dracula (Official) Theme!"), "dracula-official-theme");
}

#[test]
fn jsonc_keeps_plain_json_and_escaped_quotes() {
    let plain = r#"{"k": "v", "n": [1, 2]}"#;
    assert_eq!(strip_jsonc(plain), plain);
    assert_eq!(strip_jsonc(r#"{"a": "x\" // y"}"#), r#"{"a": "x\" // y"}"#);
    assert_eq!(strip_jsonc("[1 /* unterminated"), "[1 ");
    assert!(strip_jsonc("{ /* a */ }").len() <= "{ /* a */ }".len());
}

#[test]
fn parse_jsonc_reports_errors() {
    let v = parse_jsonc("{ \"a\": 1 /* c */ , } // end").unwrap();
    assert_eq!(v["a"], 1);
    match parse_jsonc("{ nope") {
        Err(AppError::Other(m)) => assert!(m.starts_with("Theme parse error: ")),
        other => panic!("unexpected {:?}", other.is_ok()),
    }
}

#[test]
fn zip_join_edge_cases() {
    assert_eq!(zip_join("", "a//b/./c"), "a/b/c");
    assert_eq!(zip_join("a", "../../b"), "b");
    assert_eq!(zip_join("/a/b/", "c"), "a/b/c");
    assert_eq!(included_path("extension/themes/dark.json", "./base.json"), "extension/themes/base.json");
    assert_eq!(included_path("dark.json", "base.json"), "base.json");
}

#[test]
fn slug_edge_cases() {
    assert_eq!(slugify("  --Solarized__Light-- "), "solarized-light");
    assert_eq!(slugify("!!!"), "");
    assert_eq!(slugify("Ünïcode Thème 2"), "ünïcode-thème-2");
    assert_eq!(theme_file_name("One Dark Pro"), "one-dark-pro.json");
}

#[test]
fn imported_theme_naming() {
    let m = theme_meta(Some("Night Owl".into()), Some("ignored".into()), Some("vs".into()), None);
    assert_eq!(m.name, "Night Owl");
    assert_eq!(m.id, "night-owl");
    assert!(!m.dark);
    let m = theme_meta(None, Some("Paper".into()), None, Some("light".into()));
    assert_eq!(m.name, "Paper");
    assert!(!m.dark);
    let m = theme_meta(None, None, None, None);
    assert_eq!(m.name, "Imported theme");
    assert_eq!(m.id, "imported-theme");
    assert!(m.dark);
    let m = theme_meta(None, None, Some("hc-black".into()), Some("light".into()));
    assert!(m.dark);
}

#[test]
fn json_themes_only() {
    assert!(is_json_theme("extension/themes/a.json"));
    assert!(!is_json_theme("extension/themes/a.tmTheme"));
    assert!(!is_json_theme("json"));
}

#[test]
fn an_empty_import_is_an_error() {
    assert_eq!(
        imported_or_error(vec![]).err(),
        Some(AppError::Other("No importable color themes found in this package.".into()))
    );
    let one = vec![ThemeMeta { id: "a".into(), name: "A".into(), dark: true }];
    assert_eq!(imported_or_error(one).unwrap().len(), 1);
}

#[test]
fn stored_themes_are_listed_by_name() {
    let s = stored_theme_meta(None, Some("b".into()), None);
    assert_eq!(s.id, "");
    assert!(s.dark);
    let list = vec![
        stored_theme_meta(Some("z".into()), Some("Zenburn".into()), Some(true)),
        stored_theme_meta(Some("a".into()), Some("Ayu".into()), Some(false)),
        stored_theme_meta(Some("l".into()), Some("ayu".into()), Some(true)),
        stored_theme_meta(Some("b".into()), Some("Ayu".into()), Some(true)),
    ];
    let sorted = sort_themes(list);
    let ids: Vec<&str> = sorted.iter().map(|t| t.id.as_str()).collect();
    assert_eq!(ids, vec!["a", "b", "z", "l"]);
}

#[test]
fn merging_a_theme_over_its_base() {
    let base = ThemeDoc {
        name: Value::from("Base"),
        kind: Value::from("dark"),
        kind_is_string: true,
        colors: vec![("a".into(), Value::from("#111")), ("b".into(), Value::from("#222"))],
        token_colors: vec![Value::from(1)],
    };
    let over = ThemeDoc {
        name: Value::from("Over"),
        kind: Value::Null,
        kind_is_string: false,
        colors: vec![("b".into(), Value::from("#333"))],
        token_colors: vec![Value::from(2)],
    };
    let m = merge_theme(base, over);
    assert_eq!(m.name, Value::from("Over"));
    assert_eq!(m.kind, Value::from("dark"));
    let table: std::collections::HashMap<String, Value> = m.colors.into_iter().collect();
    assert_eq!(table["a"], Value::from("#111"));
    assert_eq!(table["b"], Value::from("#333"));
    assert_eq!(m.token_colors, vec![Value::from(1), Value::from(2)]);
}

#[test]
fn package_texts_and_errors() {
    assert_eq!(strip_bom("\u{feff}\u{feff}{}"), "{}");
    assert_eq!(strip_bom("{}\u{feff}"), "{}\u{feff}");
    assert_eq!(not_a_package(), AppError::Other("This file is not a valid .vsix package.".into()));
    assert_eq!(no_themes(), AppError::Other("This extension contains no color themes.".into()));
    assert_eq!(
        missing_in_package("extension/package.json"),
        AppError::Other("File not found in package: extension/package.json".into())
    );
}

#[test]
fn jsonc_keeps_non_ascii_text() {
    assert_eq!(strip_jsonc(r#"{"a":"é"}"#), r#"{"a":"é"}"#);
    assert_eq!(strip_jsonc("{\"ü\": [1,\u{3000}], // ß\n}"), "{\"ü\": [1\u{3000}], \n}");
}

#[test]
fn stored_theme_files_are_listed() {
    let m = stored_theme(r#"{"id":"night-owl","name":"Night Owl","dark":false,"colors":{}}"#).unwrap();
    assert_eq!(m.id, "night-owl");
    assert_eq!(m.name, "Night Owl");
    assert!(!m.dark);
    let d = stored_theme(r#"{"colors":{}}"#).unwrap();
    assert_eq!(d.id, "");
    assert_eq!(d.name, "");
    assert!(d.dark);
    assert!(stored_theme("not json").is_none());
}

#[test]
fn stored_theme_value_reports_bad_json() {
    let v = stored_theme_value(r#"{"name":"A"}"#).unwrap();
    assert_eq!(v["name"], "A");
    assert!(matches!(stored_theme_value("{"), Err(AppError::Other(_))));
}

#[test]
fn manifests_list_json_themes() {
    let m = r#"{
        // themes
        "contributes": { "themes": [
            { "label": "Night", "uiTheme": "vs-dark", "path": "./themes/night.json" },
            { "label": "Old", "path": "./themes/old.tmTheme" },
            { "label": "No path" },
            { "path": "themes/day.json", },
        ] }
    }"#;
    let e = manifest_themes(m).unwrap();
    assert_eq!(e.len(), 2);
    assert_eq!(e[0].zip_path, "extension/themes/night.json");
    assert_eq!(e[0].label.as_deref(), Some("Night"));
    assert_eq!(e[0].ui_theme.as_deref(), Some("vs-dark"));
    assert_eq!(e[1].zip_path, "extension/themes/day.json");
    assert!(e[1].label.is_none());
    match manifest_themes(r#"{"name":"x"}"#) {
        Err(AppError::Other(m)) => assert_eq!(m, "This extension contains no color themes."),
        _ => panic!("expected no themes"),
    }
    match manifest_themes("{") {
        Err(AppError::Other(m)) => assert!(m.starts_with("Theme parse error: ")),
        _ => panic!("expected a parse error"),
    }
}

#[test]
fn included_themes_are_named() {
    assert_eq!(theme_include(r#"{ /* c */ "include": "./base.json", }"#).as_deref(), Some("./base.json"));
    assert!(theme_include(r#"{ "name": "x" }"#).is_none());
}

#[test]
fn package_paths_resolve_in_steps() {
    for (a, b, c) in [("extension", "themes", "x.json"), ("extension/a", "../b/./", "../c.json"), ("", "..", "x"), ("e", "", "/y")] {
        assert_eq!(zip_join(&zip_join(a, b), c), zip_join(a, &format!("{b}/{c}")));
    }
    assert_eq!(zip_join(&zip_join("extension", "themes/../t"), "x.json"), "extension/t/x.json");
}
