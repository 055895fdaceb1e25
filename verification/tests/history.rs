use floral_notepaper::history::plan_version_save;
use floral_notepaper::history::{is_new_version, new_version_id, version_id_ok, versions_to_prune};
use floral_notepaper::notes::NoteStore;

#[test]
fn version_ids_are_times_with_an_optional_hex_suffix() {
    assert!(version_id_ok("20260101T101010.123456Z"));
    assert!(version_id_ok("20260101T101010.123456Z-0a1b2c3d"));
    assert!(!version_id_ok("20260101T101010.123456Z-0a1b2c3"));
    assert!(!version_id_ok("20260101T101010.123456Z-0a1b2c3g"));
    assert!(!version_id_ok("20260101T101010.123456Z-0a1b2c3d-00000000"));
    assert!(!version_id_ok("../../etc/passwd"));
    assert!(!version_id_ok("not-a-time"));
}

#[test]
fn version_paths_lie_in_the_notes_history() {
    let store = NoteStore::new("/c".into(), "/d".into());
    assert_eq!(
        store.note_version_path("n", "20260101T101010.123456Z-0a1b2c3d").unwrap(),
        "/d/history/n/20260101T101010.123456Z-0a1b2c3d.md"
    );
    let e = store.note_version_path("n", "../x").unwrap_err();
    assert_eq!(e.code, "noteVersionNotFound");
    assert_eq!(e.message, "找不到该历史版本");
    assert_eq!(
        store.note_version_path("..", "20260101T101010.123456Z").unwrap_err().code,
        "invalidNoteId"
    );
}

#[test]
fn versions_are_listed_newest_first_from_readable_markdown_files() {
    let store = NoteStore::new("/c".into(), "/d".into());
    let files = vec![
        ("20260101T000000.000000Z-aaaaaaaa.md".to_string(), Some("第一版".to_string())),
        ("20260103T000000.000000Z-bbbbbbbb.md".to_string(), Some("第三版".to_string())),
        ("20260102T000000.000000Z.md".to_string(), Some("第二版".to_string())),
        ("20260104T000000.000000Z.md".to_string(), None),
        ("notes.txt".to_string(), Some("x".to_string())),
        ("garbage.md".to_string(), Some("x".to_string())),
    ];
    let versions = store.list_note_versions(&files);
    let ids: Vec<&str> = versions.iter().map(|v| v.id.as_str()).collect();
    assert_eq!(
        ids,
        vec![
            "20260103T000000.000000Z-bbbbbbbb",
            "20260102T000000.000000Z",
            "20260101T000000.000000Z-aaaaaaaa"
        ]
    );
    assert_eq!(versions[0].preview, "第三版");
    let day = chrono::NaiveDate::from_ymd_opt(2026, 1, 3).unwrap().and_hms_opt(0, 0, 0).unwrap().and_utc();
    assert_eq!(versions[0].created_at.secs, day.timestamp());
}

#[test]
fn keeps_at_most_twenty_note_versions() {
    let names: Vec<String> = (0..25).map(|i| format!("202601{:02}T000000.000000Z.md", i + 1)).collect();
    let mut all = names.clone();
    all.push("readme.txt".into());
    let pruned = versions_to_prune(&all);
    assert_eq!(pruned.len(), 5);
    assert_eq!(pruned, names[..5].to_vec());
    assert_eq!(all.iter().filter(|n| n.ends_with(".md")).count() - pruned.len(), 20);
    assert!(versions_to_prune(&names[..20].to_vec()).is_empty());
}

#[test]
fn pruning_goes_by_name_not_listing_order() {
    let mut names: Vec<String> = (0..22).map(|i| format!("v{:02}.md", i)).collect();
    names.reverse();
    let mut pruned = versions_to_prune(&names);
    pruned.sort();
    assert_eq!(pruned, vec!["v00.md".to_string(), "v01.md".to_string()]);
}

#[test]
fn identical_content_is_not_stored_twice() {
    let kept = vec!["A".to_string(), "B".to_string()];
    assert!(!is_new_version("A", &kept));
    assert!(is_new_version("C", &kept));
    assert!(is_new_version("A", &Vec::new()));
}

#[test]
fn new_version_ids_are_accepted_back() {
    let id = new_version_id();
    assert!(version_id_ok(&id), "{id}");
    assert_ne!(id, new_version_id());
}

#[test]
fn a_save_never_stores_a_version_twice_nor_keeps_more_than_twenty() {
    let mut files: Vec<(String, Option<String>)> =
        (0..20).map(|i| (format!("202601{:02}T000000.000000Z.md", i + 1), Some(format!("版本 {i}")))).collect();
    files.push(("notes.txt".into(), None));
    let same = plan_version_save("版本 3", &files);
    assert!(same.file_name.is_none());
    assert!(same.pruned.is_empty());
    let fresh = plan_version_save("版本 20", &files);
    let name = fresh.file_name.expect("new version");
    assert!(name.ends_with(".md"));
    assert!(version_id_ok(name.trim_end_matches(".md")), "{name}");
    assert_eq!(fresh.pruned, vec!["20260101T000000.000000Z.md".to_string()]);
    let few = plan_version_save("新", &files[..3].to_vec());
    assert!(few.file_name.is_some());
    assert!(few.pruned.is_empty());
}
