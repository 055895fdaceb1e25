use floral_notepaper::backups::{backup_archive, backup_entries, backup_entry_bytes, check_restored_data};
use floral_notepaper::attachments::Attachment;
use floral_notepaper::error::AppError;
use floral_notepaper::notes::{MetadataFile, NoteMetadata};
use floral_notepaper::backups::{
    backup_info, backup_items, backup_name, backups_to_prune, check_backup_entries,
    check_restored_layout, daily_backup_exists, list_backups, parse_u8_ok, safe_archive_path,
    BackupInfo,
};
use floral_notepaper::notes::NoteStore;
use floral_notepaper::time::Timestamp;

fn t(secs: i64) -> Timestamp {
    Timestamp { secs, nanos: 0 }
}

fn chars(s: &str) -> Vec<char> {
    s.chars().collect()
}

#[test]
fn backups_hold_the_data_items() {
    assert_eq!(
        backup_items(),
        vec!["metadata.json", "notes", "images", "attachments", "attachments.json", "history", "reminders.json"]
    );
}

#[test]
fn backup_names_carry_prefix_time_and_random_suffix() {
    let a = backup_name("auto");
    let b = backup_name("auto");
    assert!(a.starts_with("auto-"));
    assert!(a.ends_with(".zip"));
    // auto- + %Y%m%d-%H%M%S (15) + - + 8 hex + .zip
    assert_eq!(a.len(), "auto-".len() + 15 + 1 + 8 + 4);
    assert_ne!(a, b);
    let stamp = &a[5..20];
    assert_eq!(&stamp[8..9], "-");
    assert!(stamp.chars().filter(|c| *c != '-').all(|c| c.is_ascii_digit()));
}

#[test]
fn backup_info_marks_automatic_backups() {
    let i = backup_info(Some("auto-20260101-000000-abcdef12.zip".into()), Some(t(5)), 42);
    assert!(i.automatic);
    assert_eq!(i.created_at, t(5));
    assert_eq!(i.size, 42);
    let m = backup_info(Some("manual.zip".into()), None, 1);
    assert!(!m.automatic);
    let n = backup_info(None, Some(t(1)), 0);
    assert_eq!(n.file_name, "");
    assert!(!n.automatic);
}

#[test]
fn backups_are_listed_newest_first() {
    let items = vec![
        BackupInfo { file_name: "a.zip".into(), created_at: t(1), size: 1, automatic: false },
        BackupInfo { file_name: "b.zip".into(), created_at: t(3), size: 1, automatic: false },
        BackupInfo { file_name: "c.zip".into(), created_at: t(2), size: 1, automatic: false },
    ];
    let store = NoteStore::new("/c".into(), "/d".into());
    let l = store.list_backups(items);
    let names: Vec<&str> = l.iter().map(|b| b.file_name.as_str()).collect();
    assert_eq!(names, vec!["b.zip", "c.zip", "a.zip"]);
    assert!(list_backups(Vec::new()).is_empty());
}

#[test]
fn daily_backup_is_found_by_date_prefix() {
    let names = vec!["auto-20260102-101010-aaaaaaaa.zip".to_string(), "manual.zip".to_string()];
    assert!(daily_backup_exists(&names, "20260102"));
    assert!(!daily_backup_exists(&names, "20260103"));
    let store = NoteStore::new("/c".into(), "/d".into());
    let name = store.ensure_daily_backup(&Vec::new()).expect("a backup is due");
    assert!(name.starts_with("auto-"));
    let today = chrono::Utc::now().format("%Y%m%d").to_string();
    assert!(store.ensure_daily_backup(&vec![format!("auto-{today}-000000-00000000.zip")]).is_none());
}

#[test]
fn only_the_newest_thirty_archives_are_kept() {
    let mut entries: Vec<(String, Option<Timestamp>)> =
        (0..35).map(|i| (format!("b{i:02}.zip"), Some(t(i)))).collect();
    entries.push(("notes.txt".into(), Some(t(0))));
    entries.push(("nodate.zip".into(), None));
    let pruned = backups_to_prune(&entries);
    assert_eq!(pruned.len(), 6);
    assert!(pruned.contains(&"nodate.zip".to_string()));
    for i in 0..5 {
        assert!(pruned.contains(&format!("b{i:02}.zip")));
    }
    assert!(!pruned.contains(&"notes.txt".to_string()));
    assert!(backups_to_prune(&vec![("a.zip".into(), None)]).is_empty());
}

#[test]
fn u8_parsing_follows_str_parse() {
    for s in ["0", "9", "255", "+1", "007", "0255"] {
        assert_eq!(parse_u8_ok(&chars(s)), s.parse::<u8>().is_ok(), "{s}");
        assert!(parse_u8_ok(&chars(s)));
    }
    for s in ["", "+", "256", "-1", "1a", "++1", "1000"] {
        assert_eq!(parse_u8_ok(&chars(s)), s.parse::<u8>().is_ok(), "{s}");
        assert!(!parse_u8_ok(&chars(s)));
    }
}

#[test]
fn archive_entries_must_stay_inside_and_avoid_device_names() {
    assert_eq!(safe_archive_path("notes/a.md").unwrap(), "notes/a.md");
    assert_eq!(safe_archive_path("../escape.md").unwrap_err().code, "backupUnsafe");
    assert_eq!(safe_archive_path("notes/../../x").unwrap_err().message, "备份文件包含不安全路径");
    assert_eq!(safe_archive_path("/etc/passwd").unwrap_err().code, "backupUnsafe");
    assert_eq!(safe_archive_path("con.txt").unwrap_err().message, "备份文件包含 Windows 保留名称");
    assert!(safe_archive_path("NUL").is_err());
    assert!(safe_archive_path("com1.json").is_err());
    assert!(safe_archive_path("LPT+9").is_err());
    assert!(safe_archive_path("com256").is_ok());
    assert!(safe_archive_path("COM").is_ok());
    assert!(safe_archive_path("console.md").is_ok());
    assert!(check_backup_entries(&vec!["metadata.json".into(), "notes/".into()]).is_ok());
    assert_eq!(
        check_backup_entries(&vec!["metadata.json".into(), "../x".into()]).unwrap_err().code,
        "backupUnsafe"
    );
}

#[test]
fn restored_data_must_hold_notes() {
    assert!(check_restored_layout(true, true).is_ok());
    let e = check_restored_layout(true, false).unwrap_err();
    assert_eq!(e.code, "backupInvalid");
    assert_eq!(e.message, "备份缺少笔记数据");
    assert!(check_restored_layout(false, true).is_err());
}

#[test]
fn a_backup_archive_reads_back_as_its_files() {
    let files = vec![
        ("metadata.json".to_string(), b"{\"notes\":[]}".to_vec()),
        ("notes\\a.md".to_string(), "# 标题\n正文".as_bytes().to_vec()),
    ];
    let bytes = backup_archive(files).expect("write archive");
    assert!(bytes.starts_with(b"PK"));
    let entries = backup_entries(&bytes).expect("read archive");
    assert_eq!(entries.len(), 2);
    assert_eq!(entries[0], ("metadata.json".to_string(), false, 12));
    assert_eq!(entries[1].0, "notes/a.md");
    assert_eq!(backup_entry_bytes(&bytes, 0, entries[0].2).unwrap(), b"{\"notes\":[]}".to_vec());
    assert_eq!(backup_entry_bytes(&bytes, 1, entries[1].2).unwrap(), "# 标题\n正文".as_bytes().to_vec());
    // An entry that expands past what its header declares is refused.
    assert_eq!(backup_entry_bytes(&bytes, 1, 3).unwrap_err().code, "backupTooLarge");
    assert_eq!(backup_entry_bytes(&bytes, 7, 3).unwrap_err().code, "backupInvalid");
}

#[test]
fn unsafe_or_unreadable_archives_are_refused() {
    let evil = backup_archive(vec![
        ("notes/ok.md".to_string(), b"ok".to_vec()),
        ("../escape.md".to_string(), b"x".to_vec()),
    ])
    .expect("write archive");
    let e = backup_entries(&evil).unwrap_err();
    assert_eq!(e.code, "backupUnsafe");
    assert_eq!(e.message, "备份文件包含不安全路径");
    let reserved = backup_archive(vec![("CON.txt".to_string(), b"x".to_vec())]).expect("write archive");
    assert_eq!(backup_entries(&reserved).unwrap_err().message, "备份文件包含 Windows 保留名称");
    let e = backup_entries(b"not a zip").unwrap_err();
    assert_eq!(e.code, "backupInvalid");
    let twice = backup_archive(vec![("a".to_string(), Vec::new()), ("a".to_string(), Vec::new())]);
    assert_eq!(twice.unwrap_err().code, "backup");
}

#[test]
fn oversized_archives_are_refused() {
    let bomb = backup_archive(vec![("notes/big.md".to_string(), vec![0u8; 257 * 1024 * 1024])]).expect("write archive");
    assert!(bomb.len() < 1024 * 1024);
    let e = backup_entries(&bomb).unwrap_err();
    assert_eq!(e.code, "backupTooLarge");
    assert_eq!(e.message, "备份文件过大");
    assert_eq!(backup_entry_bytes(&bomb, 0, 257 * 1024 * 1024).unwrap_err().code, "backupTooLarge");
}


#[test]
fn restored_data_is_checked_before_it_replaces_anything() {
    let ok_meta = || MetadataFile { notes: vec![meta_entry("a", "a.md")] };
    assert!(check_restored_data(Some(ok_meta()), None).is_ok());
    let e = check_restored_data(None, None).unwrap_err();
    assert_eq!((e.code.as_str(), e.message.as_str()), ("backupInvalid", "备份中的 metadata.json 格式无效"));
    let bad = MetadataFile { notes: vec![meta_entry("a", "../escape.md")] };
    let e = check_restored_data(Some(bad), None).unwrap_err();
    assert_eq!(e.code, "backupInvalid");
    assert_eq!(e.message, "备份元数据无效: 笔记文件名 包含不安全路径");
    let parse = AppError::new("json".into(), "expected value".into());
    let e = check_restored_data(Some(ok_meta()), Some(Err(parse))).unwrap_err();
    assert_eq!(e.message, "备份附件元数据无效: expected value");
    let att = Attachment {
        id: "x".into(),
        note_id: "../n".into(),
        name: "f".into(),
        file_name: "x_f".into(),
        size: 1,
        created_at: floral_notepaper::time::Timestamp { secs: 0, nanos: 0 },
    };
    let e = check_restored_data(Some(ok_meta()), Some(Ok(vec![att]))).unwrap_err();
    assert_eq!(e.message, "备份附件元数据无效: note_id 格式无效");
    assert!(check_restored_data(Some(ok_meta()), Some(Ok(Vec::new()))).is_ok());
}

fn meta_entry(id: &str, file_name: &str) -> NoteMetadata {
    NoteMetadata {
        id: id.into(),
        title: id.into(),
        file_name: file_name.into(),
        category: String::new(),
        created_at: floral_notepaper::time::Timestamp { secs: 0, nanos: 0 },
        updated_at: floral_notepaper::time::Timestamp { secs: 0, nanos: 0 },
        word_count: 0,
        preview: String::new(),
        tags: Vec::new(),
        pinned: false,
    }
}
