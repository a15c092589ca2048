use factory_droid::scan::{classify_entry, ScanStep, SettingsWalk};
use std::path::PathBuf;

fn path(p: &str) -> PathBuf {
    PathBuf::from(p)
}

#[test]
fn entries_are_told_apart() {
    assert!(matches!(classify_entry(true, false, Some("x.settings.json")), ScanStep::Descend));
    assert!(matches!(classify_entry(false, true, Some("x.settings.json")), ScanStep::Skip));
    assert!(matches!(classify_entry(false, false, Some("notes.txt")), ScanStep::Skip));
    assert!(matches!(classify_entry(false, false, Some(".settings.json")), ScanStep::Skip));
    assert!(matches!(classify_entry(false, false, Some("x.settings.json.bak")), ScanStep::Skip));
    assert!(matches!(classify_entry(false, false, None), ScanStep::Skip));
    match classify_entry(false, false, Some("x.settings.json")) {
        ScanStep::Settings(id) => assert_eq!(id, "x"),
        other => panic!("{other:?}"),
    }
}

#[test]
fn walks_descend_into_directories() {
    let mut walk = SettingsWalk::new(path("/s"));
    assert_eq!(walk.next_directory(), Some(path("/s")));
    assert!(walk.visit(path("/s/a"), true, false, Some("a")).is_none());
    assert!(walk.visit(path("/s/b"), true, false, None).is_none());
    assert!(walk.visit(path("/s/c"), false, true, Some("c.settings.json")).is_none());
    let (id, file) = walk
        .visit(path("/s/x.settings.json"), false, false, Some("x.settings.json"))
        .unwrap();
    assert_eq!(id, "x");
    assert_eq!(file, path("/s/x.settings.json"));
    assert!(walk.files().is_empty());
    walk.record(id, file, 12);
    assert_eq!(walk.next_directory(), Some(path("/s/b")));
    assert_eq!(walk.next_directory(), Some(path("/s/a")));
    assert_eq!(walk.next_directory(), None);
    assert_eq!(walk.files().len(), 1);
    assert_eq!(walk.files()[0].session_id, "x");
    assert_eq!(walk.files()[0].mtime_ms, 12);
}

#[test]
fn a_later_file_replaces_one_of_the_same_session() {
    let mut walk = SettingsWalk::new(path("/s"));
    walk.record("x".to_string(), path("/s/1/x"), 1);
    walk.record("y".to_string(), path("/s/1/y"), 2);
    walk.record("x".to_string(), path("/s/2/x"), (1u128 << 64) + 3);
    assert_eq!(walk.files().len(), 2);
    let x = walk.files().iter().find(|f| f.session_id == "x").unwrap();
    assert_eq!(x.path, path("/s/2/x"));
    assert_eq!(x.mtime_ms, 3);
    let y = walk.files().iter().find(|f| f.session_id == "y").unwrap();
    assert_eq!(y.mtime_ms, 2);
}
