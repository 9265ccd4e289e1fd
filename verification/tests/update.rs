use pugdock::update::{is_newer, pick_update, version_key, ReleaseInfo};

fn release(tag: &str, draft: bool, prerelease: bool) -> ReleaseInfo {
    ReleaseInfo {
        draft,
        prerelease,
        tag: tag.to_string(),
        notes: format!("notes {tag}"),
        url: format!("https://example.invalid/{tag}"),
    }
}

#[test]
fn version_ordering() {
    assert!(version_key("v0.1.1") > version_key("0.1.0"));
    assert!(version_key("1.0.0") > version_key("0.9.9"));
    assert!(version_key("0.1.0") <= version_key("v0.1.0"));
}

#[test]
fn version_keys_read_every_part() {
    assert_eq!(version_key("v1.2.3-beta.4"), (vec![1, 2, 3], 0, vec![0, 4]));
    assert_eq!(version_key("1.0.0-rc-1"), (vec![1, 0, 0], 0, vec![0, 1]));
    assert_eq!(version_key("vv2"), (vec![2], 1, vec![]));
    assert_eq!(version_key(""), (vec![0], 1, vec![]));
    assert_eq!(version_key("1..x"), (vec![1, 0, 0], 1, vec![]));
}

#[test]
fn a_final_release_ranks_above_its_prereleases() {
    assert!(is_newer("v1.0.0", "1.0.0-beta.2"));
    assert!(!is_newer("1.0.0-beta.2", "1.0.0"));
    assert!(is_newer("1.0.0-beta.3", "1.0.0-beta.2"));
    assert!(is_newer("1.0.0-beta.1", "0.9.9"));
    let u = pick_update("1.0.0-beta.2".into(), vec![release("v1.0.0", false, false)], None).unwrap();
    assert_eq!(u.latest, "v1.0.0");
}

#[test]
fn newer_is_a_strict_order() {
    assert!(is_newer("v1.2.0", "1.1.9"));
    assert!(!is_newer("1.1.9", "v1.2.0"));
    assert!(!is_newer("1.0.0", "v1.0.0"));
    assert!(is_newer("1.0.0.1", "1.0.0"));
}

#[test]
fn the_first_offerable_release_is_picked() {
    let releases = vec![
        release("v2.0.0", true, false),
        release("v1.5.0-rc.1", false, true),
        release("v1.4.0", false, false),
    ];
    let u = pick_update("1.3.0".into(), releases, None).unwrap();
    assert_eq!(u.latest, "v1.4.0");
    assert_eq!(u.current, "1.3.0");
    assert_eq!(u.notes, "notes v1.4.0");
    assert_eq!(u.url, "https://example.invalid/v1.4.0");

    let releases = vec![release("v1.5.0-rc.1", false, true), release("v1.4.0", false, false)];
    let u = pick_update("1.3.0".into(), releases, Some(true)).unwrap();
    assert_eq!(u.latest, "v1.5.0-rc.1");
}

#[test]
fn no_update_when_current_or_nothing_offered() {
    assert!(pick_update("1.4.0".into(), vec![release("v1.4.0", false, false)], None).is_none());
    assert!(pick_update("1.4.0".into(), vec![release("v1.3.0", false, false)], None).is_none());
    assert!(pick_update("1.0.0".into(), vec![release("v9.0.0", true, false)], None).is_none());
    assert!(pick_update("1.0.0".into(), vec![], Some(true)).is_none());
}
