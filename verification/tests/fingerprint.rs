use floral_notepaper::notes::{MetadataFile, NoteMetadata, NoteStore};
use floral_notepaper::time::Timestamp;

fn meta(id: &str, updated: i64) -> NoteMetadata {
    NoteMetadata {
        id: id.into(),
        title: format!("t-{id}"),
        file_name: format!("{id}.md"),
        category: String::new(),
        created_at: Timestamp { secs: 0, nanos: 0 },
        updated_at: Timestamp { secs: updated, nanos: 0 },
        word_count: 0,
        preview: String::new(),
        tags: Vec::new(),
        pinned: false,
    }
}

fn expected(notes: &[(&NoteMetadata, Option<&[u8]>)]) -> String {
    let mut hasher = blake3::Hasher::new();
    for (m, content) in notes {
        let updated = chrono::DateTime::<chrono::Utc>::from_timestamp(m.updated_at.secs, m.updated_at.nanos)
            .unwrap()
            .to_rfc3339();
        for v in [m.id.as_str(), m.title.as_str(), m.file_name.as_str(), m.category.as_str(), updated.as_str()] {
            hasher.update(v.as_bytes());
            hasher.update(&[0]);
        }
        match content {
            Some(b) => {
                hasher.update(blake3::hash(b).to_hex().as_bytes());
            }
            None => {
                hasher.update(b"<missing>");
            }
        }
        hasher.update(&[0]);
    }
    hasher.finalize().to_hex().to_string()
}

#[test]
fn fingerprint_covers_notes_in_id_order_and_their_files() {
    let store = NoteStore::new("/c".into(), "/d".into());
    let b = meta("b", 20);
    let a = meta("a", 10);
    let metadata = MetadataFile { notes: vec![meta("b", 20), meta("a", 10)] };
    let contents = vec![Some(b"second".to_vec()), None];
    let f = store.fts_fingerprint(&metadata, &contents).unwrap();
    assert_eq!(f, expected(&[(&a, None), (&b, Some(b"second"))]));
    let swapped = MetadataFile { notes: vec![meta("a", 10), meta("b", 20)] };
    assert_eq!(store.fts_fingerprint(&swapped, &vec![None, Some(b"second".to_vec())]).unwrap(), f);
}

#[test]
fn an_external_edit_changes_the_fingerprint() {
    let store = NoteStore::new("/c".into(), "/d".into());
    let metadata = MetadataFile { notes: vec![meta("a", 10)] };
    let before = store.fts_fingerprint(&metadata, &vec![Some(b"old".to_vec())]).unwrap();
    let after = store.fts_fingerprint(&metadata, &vec![Some(b"new".to_vec())]).unwrap();
    assert_ne!(before, after);
}

#[test]
fn unusable_entries_are_refused() {
    let store = NoteStore::new("/c".into(), "/d".into());
    let mut bad = meta("a", 10);
    bad.file_name = "../x.md".into();
    assert!(store.fts_fingerprint(&MetadataFile { notes: vec![bad] }, &vec![None]).is_err());
    let late = meta("a", i64::MAX);
    assert_eq!(
        store.fts_fingerprint(&MetadataFile { notes: vec![late] }, &vec![None]).unwrap_err().code,
        "invalidTimestamp"
    );
}
