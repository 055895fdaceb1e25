use floral_notepaper::loading::{corrupt_copies_to_prune, corrupt_metadata_name, MetadataChoice};
use floral_notepaper::notes::{MetadataFile, NoteMetadata, NoteStore};
use floral_notepaper::reconcile::scan_notes;
use floral_notepaper::time::Timestamp;

fn t(secs: i64) -> Timestamp {
    Timestamp { secs, nanos: 0 }
}

fn meta(id: &str, file_name: &str, category: &str) -> NoteMetadata {
    NoteMetadata {
        id: id.into(),
        title: format!("title {id}"),
        file_name: file_name.into(),
        category: category.into(),
        created_at: t(1),
        updated_at: t(2),
        word_count: 3,
        preview: "p".into(),
        tags: vec!["kept".into()],
        pinned: true,
    }
}

const UUID: &str = "67e55044-10b1-426f-9247-bb680e5fe0c8";

#[test]
fn scanning_yields_one_entry_per_markdown_note() {
    let files = vec![
        (String::new(), format!("{UUID}_崩溃后留下的笔记.md"), "# 崩溃恢复\n正文".to_string(), t(9)),
        ("工作".to_string(), "plain.md".to_string(), "hello world".to_string(), t(8)),
        (String::new(), "plain.md".to_string(), "duplicate id".to_string(), t(7)),
        (String::new(), "notes.txt".to_string(), "not markdown".to_string(), t(6)),
    ];
    let scanned = scan_notes(&files);
    assert_eq!(scanned.len(), 2);
    assert_eq!(scanned[0].id, UUID);
    assert_eq!(scanned[0].title, "崩溃恢复");
    assert_eq!(scanned[0].created_at, t(9));
    assert_eq!(scanned[0].updated_at, t(9));
    assert!(scanned[0].tags.is_empty());
    assert!(!scanned[0].pinned);
    assert_eq!(scanned[1].id, "plain");
    assert_eq!(scanned[1].category, "工作");
    assert_eq!(scanned[1].word_count, 10);
    assert_eq!(scanned[1].preview, "hello world");
}

#[test]
fn reconciles_an_orphan_markdown_file_without_losing_existing_metadata() {
    let store = NoteStore::new("/c".into(), "/d".into());
    let existing = meta("kept", "kept_已有笔记.md", "");
    let mut metadata = MetadataFile { notes: vec![existing] };
    let orphan = format!("{UUID}_崩溃后留下的笔记.md");
    let files_on_disk = vec!["/d/notes/kept_已有笔记.md".to_string(), format!("/d/notes/{orphan}")];
    let scanned = scan_notes(&vec![
        (String::new(), "kept_已有笔记.md".to_string(), "已有内容".to_string(), t(50)),
        (String::new(), orphan.clone(), "# 崩溃恢复\n这篇文件写入后 metadata 尚未来得及提交。".to_string(), t(60)),
    ]);
    let changed = metadata.reconcile_with_files(&store, &scanned, &files_on_disk).unwrap();
    assert!(changed);
    assert_eq!(metadata.notes.len(), 2);
    assert_eq!(metadata.notes[0].id, "kept");
    assert_eq!(metadata.notes[0].tags, vec!["kept".to_string()]);
    assert!(metadata.notes[0].pinned);
    assert_eq!(metadata.notes[1].id, UUID);
    assert_eq!(metadata.notes[1].title, "崩溃恢复");
    let again = metadata.reconcile_with_files(&store, &scanned, &files_on_disk).unwrap();
    assert!(!again);
}

#[test]
fn a_moved_file_replaces_the_stale_entry_but_keeps_tags_and_creation() {
    let store = NoteStore::new("/c".into(), "/d".into());
    let mut metadata = MetadataFile { notes: vec![meta("n1", "n1_old.md", "")] };
    let scanned = scan_notes(&vec![("工作".to_string(), "n1_old.md".to_string(), "new text".to_string(), t(70))]);
    let files = vec!["/d/notes/工作/n1_old.md".to_string()];
    assert_eq!(scanned[0].id, "n1_old");
    let mut legacy = MetadataFile { notes: vec![meta("n1", "n1_old.md", "")] };
    assert!(legacy.reconcile_with_files(&store, &scanned, &files).unwrap());
    assert_eq!(legacy.notes.len(), 1);
    assert_eq!(legacy.notes[0].category, "工作");
    assert_eq!(legacy.notes[0].tags, vec!["kept".to_string()]);
    assert_eq!(legacy.notes[0].created_at, t(1));
    assert_eq!(legacy.notes[0].updated_at, t(70));
    assert!(metadata.reconcile_with_files(&store, &Vec::new(), &Vec::new()).unwrap());
    assert!(metadata.notes.is_empty());
}

#[test]
fn reconciling_fails_on_an_unusable_stored_path_and_keeps_the_metadata() {
    let store = NoteStore::new("/c".into(), "/d".into());
    let mut metadata = MetadataFile { notes: vec![meta("x", "../escape.md", "")] };
    let scanned = scan_notes(&vec![(String::new(), "x.md".to_string(), "c".to_string(), t(1))]);
    assert!(metadata.reconcile_with_files(&store, &scanned, &Vec::new()).is_err());
    assert_eq!(metadata.notes[0].file_name, "../escape.md");
}

#[test]
fn notes_are_built_from_readable_files_only() {
    let store = NoteStore::new("/c".into(), "/d".into());
    let metadata = MetadataFile { notes: vec![meta("a", "a.md", ""), meta("b", "b.md", "")] };
    let notes = store.notes_for_metadata(&metadata, &vec![None, Some("正文".to_string())]);
    assert_eq!(notes.len(), 1);
    assert_eq!(notes[0].id, "b");
    assert_eq!(notes[0].content, "正文");
    assert_eq!(notes[0].tags, vec!["kept".to_string()]);
}

#[test]
fn only_safe_metadata_is_trusted() {
    let store = NoteStore::new("/c".into(), "/d".into());
    assert!(matches!(
        store.fallback_load_from_json_or_rebuild(None),
        MetadataChoice::Rebuild { keep_corrupt_copy: false }
    ));
    assert!(matches!(
        store.fallback_load_from_json_or_rebuild(Some(None)),
        MetadataChoice::Rebuild { keep_corrupt_copy: true }
    ));
    let unsafe_meta = MetadataFile { notes: vec![meta("safe", "../escape.md", "")] };
    assert!(matches!(
        store.fallback_load_from_json_or_rebuild(Some(Some(unsafe_meta))),
        MetadataChoice::Rebuild { keep_corrupt_copy: true }
    ));
    let good = MetadataFile { notes: vec![meta("ok", "ok.md", "分类")] };
    match store.fallback_load_from_json_or_rebuild(Some(Some(good))) {
        MetadataChoice::Trusted(m) => assert_eq!(m.notes[0].id, "ok"),
        other => panic!("unexpected {other:?}"),
    }
}

#[test]
fn corrupt_copies_are_named_and_pruned_to_five() {
    let name = corrupt_metadata_name();
    assert!(name.starts_with("metadata.corrupt-"));
    assert!(name.ends_with(".json"));
    assert_eq!(name.len(), "metadata.corrupt-".len() + 14 + 1 + 8 + 5);
    let names: Vec<String> = (0..8)
        .map(|i| format!("metadata.corrupt-2026010{i}000000-aaaaaaaa.json"))
        .chain(std::iter::once("metadata.json".to_string()))
        .collect();
    let pruned = corrupt_copies_to_prune(&names);
    assert_eq!(
        pruned,
        vec![
            "metadata.corrupt-20260102000000-aaaaaaaa.json".to_string(),
            "metadata.corrupt-20260101000000-aaaaaaaa.json".to_string(),
            "metadata.corrupt-20260100000000-aaaaaaaa.json".to_string(),
        ]
    );
}
