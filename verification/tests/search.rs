use floral_notepaper::library::search;
use floral_notepaper::notes::Note;
use floral_notepaper::time::Timestamp;

fn now() -> Timestamp {
    let now = chrono::Utc::now();
    Timestamp { secs: now.timestamp(), nanos: now.timestamp_subsec_nanos() }
}

fn sample_note(id: &str, title: &str, content: &str) -> Note {
    Note {
        id: id.into(),
        title: title.into(),
        file_name: format!("{id}.md"),
        category: "学习".into(),
        created_at: now(),
        updated_at: now(),
        word_count: content.len(),
        content: content.into(),
        tags: Vec::new(),
        pinned: false,
    }
}

#[test]
fn fallback_search_uses_current_authoritative_notes() {
    let notes = vec![
        sample_note("a", "机械设计", "齿轮强度计算"),
        sample_note("b", "菜谱", "番茄炒蛋"),
    ];
    let results = search("/tmp/search", "齿轮", &notes).expect("search");
    assert_eq!(results.len(), 1);
    assert_eq!(results[0].note_id, "a");
}

#[test]
fn fallback_search_handles_chinese_utf8_boundaries() {
    let content = format!(
        "{}水稻田{}",
        "春风吹过田野。".repeat(40),
        "收成很好。".repeat(40)
    );
    let notes = vec![sample_note("rice", "农学", &content)];
    let results = search("/tmp/utf8-search", "水稻", &notes).expect("search should not panic");
    assert_eq!(results.len(), 1);
    assert!(results[0].snippet.contains("水稻田"));
}

#[test]
fn fallback_search_keeps_unicode_casefold_offsets_safe() {
    let notes = vec![sample_note(
        "turkish",
        "İstanbul",
        "İstanbul 的字节长度会变化",
    )];
    let results = search("/tmp/unicode-casefold", "i̇stan", &notes).expect("unicode search should not panic");
    assert_eq!(results.len(), 1);
    assert!(results[0].snippet.contains("İstanbul"));
}

#[test]
fn rebuilds_fts_for_existing_json_notes_when_derived_state_is_missing() {
    let store = floral_notepaper::notes::NoteStore::new("/c".into(), "/d".into());
    let first = sample_note("first", "旧笔记一", "水稻田里的第一条旧记录");
    let second = sample_note("second", "旧笔记二", "水稻田里的第二条旧记录");
    // With the derived state gone the index is not current, and until it
    // is rebuilt the search goes over the notes themselves.
    assert!(!floral_notepaper::db::db_fts_is_current(&None, "fingerprint"));
    let notes = vec![first, second];
    let results = store.search_content("水稻田", None, &notes).expect("search after migration");
    let ids: Vec<&str> = results.iter().map(|item| item.note_id.as_str()).collect();
    assert_eq!(results.len(), 2);
    assert!(ids.contains(&"first"));
    assert!(ids.contains(&"second"));
    let empty_index = store.search_content("水稻田", Some(Vec::new()), &notes).expect("search with empty index");
    assert_eq!(empty_index.len(), 2);
}
