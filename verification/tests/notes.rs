use floral_notepaper::notes::{
    check_import_file, check_merge_request, count_words, daily_note_request, id_from_file_name, imported_markdown_title,
    infer_title, is_uuid_like, list_notes, merged_request, preview, safe_file_stem, source_has_images,
    validate_metadata, MergeNotesRequest, MetadataFile, Note, NoteMetadata, NoteStore, SaveNoteRequest,
};
use floral_notepaper::history::{is_new_version, new_version_id};
use floral_notepaper::time::Timestamp;

const UUID: &str = "67e55044-10b1-426f-9247-bb680e5fe0c8";

fn t(secs: i64) -> Timestamp {
    Timestamp { secs, nanos: 0 }
}

fn store() -> NoteStore {
    NoteStore::new("/cfg".into(), "/data".into())
}

fn meta(id: &str, file_name: &str, category: &str, updated: i64) -> NoteMetadata {
    NoteMetadata {
        id: id.into(),
        title: id.into(),
        file_name: file_name.into(),
        category: category.into(),
        created_at: t(1),
        updated_at: t(updated),
        word_count: 0,
        preview: String::new(),
        tags: vec!["tag".into()],
        pinned: false,
    }
}

fn request(title: &str, content: &str, category: &str, tags: &[&str]) -> SaveNoteRequest {
    SaveNoteRequest {
        title: title.into(),
        content: content.into(),
        category: category.into(),
        tags: tags.iter().map(|s| s.to_string()).collect(),
        pinned: false,
    }
}

fn note(id: &str, title: &str, content: &str, tags: &[&str]) -> Note {
    Note {
        id: id.into(),
        title: title.into(),
        file_name: format!("{id}.md"),
        category: "收件箱".into(),
        created_at: t(1),
        updated_at: t(2),
        word_count: 0,
        content: content.into(),
        tags: tags.iter().map(|s| s.to_string()).collect(),
        pinned: false,
    }
}

#[test]
fn words_and_previews() {
    assert_eq!(count_words("hello world"), 10);
    assert_eq!(count_words("齿轮 强度\n计算"), 6);
    assert_eq!(preview("  hello\n\nworld  "), "hello world");
    assert_eq!(preview(&"字".repeat(100)).chars().count(), 80);
}

#[test]
fn file_stems_drop_separators() {
    assert_eq!(safe_file_stem("A/B:Test"), "A_B_Test");
    assert_eq!(safe_file_stem("  spaced   out  "), "spaced_out");
    assert_eq!(safe_file_stem("///"), "");
    assert_eq!(safe_file_stem(&"x".repeat(100)).chars().count(), 48);
}

#[test]
fn note_ids_come_from_file_names() {
    assert!(is_uuid_like(UUID));
    assert!(!is_uuid_like("id-1"));
    assert_eq!(id_from_file_name(&format!("{UUID}_title.md")).as_deref(), Some(UUID));
    assert_eq!(id_from_file_name("id-1_笔记.md").as_deref(), Some("id-1_笔记"));
    assert_eq!(id_from_file_name("plain.md").as_deref(), Some("plain"));
    assert_eq!(id_from_file_name("notes.txt"), None);
}

#[test]
fn file_names_round_trip_to_ids() {
    let name = store().file_name_for(UUID, "A/B:Test");
    assert_eq!(name, format!("{UUID}_A_B_Test.md"));
    assert_eq!(id_from_file_name(&name).as_deref(), Some(UUID));
    assert_eq!(store().file_name_for(UUID, "///"), format!("{UUID}.md"));
}

#[test]
fn titles_are_inferred_from_headings_or_names() {
    assert_eq!(infer_title("id_x.md", "# 第一条\n正文"), "第一条");
    assert_eq!(infer_title("id_some_title.md", "no heading"), "some title");
    assert_eq!(infer_title("plain.md", "no heading"), "");
}

#[test]
fn imports_markdown_heading_title_without_stripping_content() {
    assert_eq!(imported_markdown_title("/tmp/外部文件.md", "# 导入标题\n正文第一行\n正文第二行"), "导入标题");
}

#[test]
fn imports_markdown_title_from_file_name_without_heading() {
    assert_eq!(imported_markdown_title("/tmp/会议记录.md", "正文第一行\n# 不是第一行标题"), "会议记录");
    assert_eq!(imported_markdown_title("/tmp/.md", ""), ".md");
    assert_eq!(imported_markdown_title("/", ""), "导入笔记");
}

#[test]
fn store_paths() {
    let s = store();
    assert_eq!(s.data_dir(), "/data");
    assert_eq!(s.config_dir(), "/cfg");
    assert_eq!(s.metadata_path(), "/data/metadata.json");
    assert_eq!(s.config_path(), "/cfg/config.json");
    assert_eq!(s.images_dir("n").unwrap(), "/data/images/n");
    assert_eq!(s.images_dir("../n").unwrap_err().code, "invalidNoteId");
    assert_eq!(s.note_path_in_category("a.md", "").unwrap(), "/data/notes/a.md");
    assert_eq!(s.note_path_in_category("a.md", "工作").unwrap(), "/data/notes/工作/a.md");
    assert!(s.note_path_in_category("../a.md", "").is_err());
    assert!(s.note_path_in_category("a.txt", "").is_err());
    assert!(s.note_path_in_category("a.md", "..").is_err());
}

#[test]
fn creates_updates_and_moves_notes_in_metadata() {
    let s = store();
    let planned = s.plan_new_note(request("A/B:Test", "hello\nworld", "work", &["urgent"]), t(10)).unwrap();
    assert!(planned.metadata.file_name.ends_with("_A_B_Test.md"));
    assert_eq!(planned.metadata.word_count, 10);
    assert_eq!(planned.metadata.preview, "hello world");
    assert_eq!(planned.path, format!("/data/notes/work/{}", planned.metadata.file_name));
    assert!(s.plan_new_note(request("x", "", "../x", &[]), t(10)).is_err());
    let id = planned.metadata.id.clone();
    let mut metadata = MetadataFile { notes: vec![planned.metadata] };
    let update = metadata
        .apply_update(&s, &id, request("# 新标题", "second line", "archive", &["a"]), t(20))
        .unwrap();
    assert_eq!(update.index, 0);
    assert_eq!(metadata.notes[0].created_at, t(10));
    assert_eq!(metadata.notes[0].updated_at, t(20));
    assert_eq!(metadata.notes[0].category, "archive");
    assert!(update.old_path.contains("/work/"));
    assert!(update.new_path.contains("/archive/"));
    let moved = metadata.move_to_category(&s, &id, "").unwrap();
    assert_eq!(moved.metadata.category, "");
    assert!(moved.paths.is_some());
    let same = metadata.move_to_category(&s, &id, "").unwrap();
    assert!(same.paths.is_none());
    assert_eq!(metadata.move_to_category(&s, "missing", "").unwrap_err().code, "noteNotFound");
    assert_eq!(metadata.apply_update(&s, "missing", request("x", "", "", &[]), t(1)).unwrap_err().code, "noteNotFound");
}

#[test]
fn removed_notes_can_be_put_back() {
    let mut metadata = MetadataFile { notes: vec![meta("a", "a.md", "", 1), meta("b", "b.md", "", 2)] };
    let (index, removed) = metadata.remove_note("a").unwrap();
    assert_eq!(index, 0);
    assert_eq!(metadata.notes.len(), 1);
    metadata.restore_note(index, removed);
    assert_eq!(metadata.notes[0].id, "a");
    assert_eq!(metadata.remove_note("zzz").unwrap_err().code, "noteNotFound");
    assert_eq!(metadata.find_metadata("b").unwrap().file_name, "b.md");
}

#[test]
fn categories_in_metadata() {
    let mut metadata = MetadataFile {
        notes: vec![meta("a", "a.md", "旧", 1), meta("b", "b.md", "", 2), meta("c", "c.md", "旧", 3)],
    };
    assert_eq!(metadata.file_names_in_category("旧"), vec!["a.md".to_string(), "c.md".to_string()]);
    metadata.rename_category("旧", "新");
    assert_eq!(metadata.notes[0].category, "新");
    assert_eq!(metadata.notes[1].category, "");
    assert!(metadata.uncategorize("新"));
    assert!(metadata.notes.iter().all(|n| n.category.is_empty()));
    assert!(!metadata.uncategorize("新"));
}

#[test]
fn merges_notes_preserving_target_and_combining_tags() {
    let target = note("target", "目标笔记", "目标内容", &["收件箱"]);
    let source = note("source", "来源笔记", "来源内容 ![](images/source/a.png)", &["待整理", "收件箱"]);
    assert!(source_has_images(&source));
    assert!(!source_has_images(&target));
    let merged = merged_request(&target, &source);
    assert_eq!(merged.title, "目标笔记");
    assert_eq!(
        merged.content,
        "目标内容\n\n---\n\n## 合并自：来源笔记\n\n来源内容 ![](images/target/a.png)"
    );
    assert_eq!(merged.tags, vec!["收件箱".to_string(), "待整理".to_string()]);
    let same = MergeNotesRequest { target_id: "x".into(), source_id: "x".into() };
    assert_eq!(check_merge_request(&same).unwrap_err().code, "mergeSameNote");
}

#[test]
fn opens_the_same_daily_note_for_the_same_day() {
    let r = daily_note_request("2026-01-02");
    assert_eq!(r.title, "2026-01-02");
    assert_eq!(r.content, "# 2026-01-02\n\n## 待办\n- [ ] \n\n## 随手记\n");
    assert_eq!(r.category, "每日便笺");
    let planned = store().plan_new_note(r, t(5)).unwrap();
    let metadata = MetadataFile { notes: vec![meta("other", "o.md", "", 1), planned.metadata] };
    assert_eq!(metadata.find_daily("2026-01-02"), Some(1));
    assert_eq!(metadata.find_daily("2026-01-03"), None);
}

#[test]
fn note_list_shows_existing_files_most_recent_first() {
    let notes = vec![meta("a", "a.md", "", 1), meta("b", "b.md", "", 3), meta("c", "c.md", "", 2)];
    let listed = list_notes(notes, &vec![true, true, false]);
    let ids: Vec<&str> = listed.iter().map(|m| m.id.as_str()).collect();
    assert_eq!(ids, vec!["b", "a"]);
}

#[test]
fn rejects_unsafe_note_paths_in_metadata() {
    let good = MetadataFile { notes: vec![meta("a", "a.md", "", 1)] };
    assert!(validate_metadata(&good).is_ok());
    let bad = MetadataFile { notes: vec![meta("safe", "../escape.md", "", 1)] };
    assert_eq!(validate_metadata(&bad).unwrap_err().code, "unsafePath");
    let bad_id = MetadataFile { notes: vec![meta("../越界", "a.md", "", 1)] };
    assert_eq!(validate_metadata(&bad_id).unwrap_err().code, "invalidNoteId");
}

fn new_request(title: &str, content: &str, category: &str, tags: &[&str], pinned: bool) -> SaveNoteRequest {
    let mut r = request(title, content, category, tags);
    r.pinned = pinned;
    r
}

fn all_of(metadata: &MetadataFile) -> Vec<NoteMetadata> {
    metadata.notes.iter().map(|m| m.copied()).collect()
}

#[test]
fn creates_updates_reads_and_deletes_markdown_notes() {
    let store = store();
    let created = store
        .plan_new_note(new_request("A/B:Test", "hello\nworld", "", &["work", "urgent"], true), t(10))
        .expect("create note");
    let id = created.note.id.clone();
    assert_eq!(created.note.title, "A/B:Test");
    assert_eq!(created.note.tags, ["work", "urgent"]);
    assert!(created.note.pinned);
    assert_eq!(created.note.content, "hello\nworld");
    assert_eq!(created.note.word_count, 10);
    assert!(created.note.file_name.ends_with(".md"));
    assert!(created.note.file_name.contains("A_B_Test"));

    let mut metadata = MetadataFile { notes: Vec::new() };
    metadata.add_note(created.metadata.copied());
    let loaded = Note::from_metadata(metadata.find_metadata(&id).expect("read note"), created.note.content.clone());
    assert_eq!(loaded.id, created.note.id);
    assert_eq!(loaded.title, created.note.title);
    assert_eq!(loaded.file_name, created.note.file_name);
    assert_eq!(loaded.category, created.note.category);
    assert_eq!(loaded.tags, created.note.tags);
    assert_eq!(loaded.pinned, created.note.pinned);
    assert_eq!(loaded.word_count, created.note.word_count);
    assert_eq!(loaded.content, created.note.content);

    let listed = list_notes(all_of(&metadata), &vec![true]);
    assert_eq!(listed.len(), 1);
    assert_eq!(listed[0].id, created.note.id);
    assert_eq!(listed[0].preview, "hello world");

    let updated = metadata
        .apply_update(&store, &id, new_request("", "# 新标题\nsecond line", "", &["archive"], false), t(20))
        .expect("update note")
        .note;
    assert_eq!(updated.title, "");
    assert_eq!(updated.tags, ["archive"]);
    assert!(!updated.pinned);
    assert_eq!(updated.content, "# 新标题\nsecond line");
    assert_ne!(updated.file_name, created.note.file_name);

    metadata.remove_note(&id).expect("delete note");
    assert!(metadata.find_metadata(&id).is_err());
    assert!(list_notes(all_of(&metadata), &Vec::new()).is_empty());
}

#[test]
fn merges_notes_preserving_target_history_and_combining_tags() {
    let store = store();
    let target = store
        .plan_new_note(new_request("目标笔记", "目标内容", "学习", &["机械"], true), t(10))
        .expect("create target");
    let source = store
        .plan_new_note(new_request("来源笔记", "来源内容", "收件箱", &["机械", "待整理"], false), t(11))
        .expect("create source");
    let mut metadata = MetadataFile { notes: Vec::new() };
    metadata.add_note(target.metadata.copied());
    metadata.add_note(source.metadata.copied());

    let ids = MergeNotesRequest { target_id: target.note.id.clone(), source_id: source.note.id.clone() };
    check_merge_request(&ids).expect("merge notes");
    // Saving the merged target keeps its previous content as one version.
    assert!(is_new_version(&target.note.content, &Vec::new()));
    let merged = metadata
        .apply_update(&store, &target.note.id, merged_request(&target.note, &source.note), t(12))
        .expect("merge notes")
        .note;
    assert!(merged.content.contains("目标内容"));
    assert!(merged.content.contains("## 合并自：来源笔记"));
    assert!(merged.content.contains("来源内容"));
    assert_eq!(merged.category, "学习");
    assert!(merged.pinned);
    assert_eq!(merged.tags, ["机械", "待整理"]);
    metadata.remove_note(&source.note.id).expect("remove source");
    assert!(metadata.find_metadata(&source.note.id).is_err());
    assert_eq!(list_notes(all_of(&metadata), &vec![true]).len(), 1);
    let history = vec![(format!("{}.md", new_version_id()), Some(target.note.content.clone()))];
    assert_eq!(store.list_note_versions(&history).len(), 1);
    assert!(check_merge_request(&MergeNotesRequest {
        target_id: target.note.id.clone(),
        source_id: target.note.id.clone(),
    })
    .is_err());
}

#[test]
fn keeps_note_versions_and_restores_a_previous_content_snapshot() {
    let store = store();
    let created = store
        .plan_new_note(new_request("历史测试", "第一版", "", &[], false), t(10))
        .expect("create note");
    let id = created.note.id.clone();
    let mut metadata = MetadataFile { notes: Vec::new() };
    metadata.add_note(created.metadata.copied());

    let mut kept: Vec<String> = Vec::new();
    let mut files: Vec<(String, Option<String>)> = Vec::new();
    assert!(is_new_version("第一版", &kept));
    kept.push("第一版".to_string());
    files.push(("20260101T000000.000000Z.md".to_string(), Some("第一版".to_string())));
    metadata.apply_update(&store, &id, new_request("历史测试", "第二版", "", &[], false), t(20)).expect("update note");

    let versions = store.list_note_versions(&files);
    assert_eq!(versions.len(), 1);
    assert_eq!(versions[0].preview, "第一版");

    // Restoring saves the current content as another version first.
    assert!(is_new_version("第二版", &kept));
    files.push(("20260101T000001.000000Z.md".to_string(), Some("第二版".to_string())));
    let restored = metadata
        .apply_update(&store, &id, new_request("历史测试", "第一版", "", &[], false), t(30))
        .expect("restore version")
        .note;
    assert_eq!(restored.content, "第一版");
    assert_eq!(store.list_note_versions(&files).len(), 2);
}

#[test]
fn only_markdown_files_of_at_most_25_mib_are_imported() {
    assert_eq!(check_import_file("/tmp/a.txt", None).unwrap_err().code, "unsupportedFile");
    assert_eq!(check_import_file("/tmp/a.txt", Some(1)).unwrap_err().code, "unsupportedFile");
    assert!(check_import_file("/tmp/a.MD", None).is_ok());
    assert!(check_import_file("/tmp/a.md", Some(25 * 1024 * 1024)).is_ok());
    let e = check_import_file("/tmp/a.md", Some(25 * 1024 * 1024 + 1)).unwrap_err();
    assert_eq!(e.code, "importTooLarge");
    assert_eq!(e.message, "导入的 Markdown 文件不能超过 25 MB");
}

#[test]
fn backslashes_are_ordinary_characters_in_note_ids() {
    assert!(floral_notepaper::paths::validate_note_id("a\\b").is_ok());
    assert!(floral_notepaper::paths::validate_note_id("a/b").is_err());
    assert!(floral_notepaper::paths::validate_note_id("abc").is_ok());
}
