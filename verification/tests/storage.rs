use floral_notepaper::storage::{plan_legacy_config, relocation_due};
use floral_notepaper::notes::NoteStore;
use floral_notepaper::storage::{
    has_user_data, is_filesystem_root, is_safe_data_dir, known_data_migration_candidates_for,
    path_has_prefix, paths_equal,
};
use floral_notepaper::storage::{data_dir_items, derived_db_items, legacy_aux_items};
use floral_notepaper::notes::{MetadataFile, NoteMetadata};
use floral_notepaper::storage::loose_note_moves;
use floral_notepaper::time::Timestamp;
use floral_notepaper::storage::legacy_category_dir;
use floral_notepaper::storage::check_copy_target;
use floral_notepaper::storage::strip_verbatim;
use floral_notepaper::storage::{data_dir_from_notes_dir, remap_path_prefix};
use floral_notepaper::storage::{
    data_dir_from_config, default_config_dir_from, default_data_dir_from, dir_from_env, resolve_data_dir_from,
};
use std::path::PathBuf;

fn lossy(p: PathBuf) -> String {
    p.to_string_lossy().to_string()
}

#[test]
fn data_migration_candidates_include_legacy_chinese_dirs() {
    let candidates = known_data_migration_candidates_for(
        Some("/Users/alice".into()),
        Some(r"C:\Users\Alice".into()),
    );

    assert!(candidates.contains(&lossy(PathBuf::from("/Users/alice").join("Documents").join("花笺"))));
    assert!(candidates.contains(&lossy(
        PathBuf::from("/Users/alice")
            .join("Library")
            .join("Application Support")
            .join("花笺")
    )));
    assert!(candidates.contains(&lossy(
        PathBuf::from(r"C:\Users\Alice")
            .join("Documents")
            .join("花笺")
    )));
}

#[test]
fn no_candidates_without_home_or_profile() {
    assert!(known_data_migration_candidates_for(None, None).is_empty());
    assert_eq!(
        known_data_migration_candidates_for(None, Some("/p".into())),
        vec!["/p/Documents/花笺".to_string()]
    );
}

#[test]
fn roots_are_recognized() {
    assert!(is_filesystem_root("/"));
    assert!(is_filesystem_root("///"));
    assert!(is_filesystem_root(""));
    assert!(is_filesystem_root("C:"));
    assert!(is_filesystem_root("d:\\"));
    assert!(!is_filesystem_root("/home"));
    assert!(!is_filesystem_root("1:"));
}

#[test]
fn unsafe_data_dirs_are_refused_with_reasons() {
    let root = is_safe_data_dir("/").unwrap_err();
    assert_eq!(root.code, "unsafePath");
    assert_eq!(root.message, "不能将磁盘根目录设为数据目录，请选择一个子文件夹");
    let system = is_safe_data_dir("C:\\Windows").unwrap_err();
    assert_eq!(system.code, "unsafePath");
    assert_eq!(system.message, "不能将系统目录「C:\\Windows」设为数据目录");
    let nothing = is_safe_data_dir("../..").unwrap_err();
    assert_eq!(nothing.message, "数据目录路径不合法，请选择一个具体的文件夹");
    assert!(is_safe_data_dir("/home/alice/花笺").is_ok());
}

#[test]
fn paths_compare_by_components() {
    assert!(paths_equal("/a/b", "/a//b/"));
    assert!(paths_equal("/a/./b", "/a/b"));
    assert!(!paths_equal("a/b", "/a/b"));
    assert!(path_has_prefix("/data/notes/floral", "/data"));
    assert!(!path_has_prefix("/database", "/data"));
    assert!(path_has_prefix("/data", "/data"));
}

#[test]
fn user_data_ignores_configuration_files() {
    assert!(!has_user_data(&vec![Some("config.json".into()), Some(".macos-shortcut-default-v3".into())]));
    assert!(has_user_data(&vec![Some("config.json".into()), Some("notes".into())]));
    assert!(has_user_data(&vec![None]));
    assert!(!has_user_data(&vec![]));
}

#[test]
fn migrate_data_to_rejects_target_inside_current_data_dir() {
    let store = NoteStore::new("/cfg".into(), "/root/data".into());
    let error = store
        .migrate_data_to("/root/data/notes/floral", "/root/data/notes/floral", "/root/data")
        .expect_err("target inside data dir must be rejected");
    assert_eq!(error.code, "unsafePath");
}

#[test]
fn migrating_to_the_same_dir_does_nothing_and_elsewhere_gives_a_new_store() {
    let store = NoteStore::new("/cfg".into(), "/root/data".into());
    assert!(store.migrate_data_to("/root/data", "/root/data", "/root/data").unwrap().is_none());
    let moved = store
        .migrate_data_to("/mnt/new", "/mnt/new", "/root/data")
        .unwrap()
        .expect("a new store");
    assert_eq!(moved.data_dir(), "/mnt/new");
    assert_eq!(moved.config_dir(), "/cfg");
    assert_eq!(store.migrate_data_to("/", "/", "/root/data").unwrap_err().code, "unsafePath");
}

#[test]
fn data_items_and_derived_files() {
    assert_eq!(data_dir_items().len(), 9);
    assert!(data_dir_items().contains(&"backgrounds".to_string()));
    assert!(!data_dir_items().contains(&"floral.db".to_string()));
    assert_eq!(derived_db_items(), vec!["floral.db", "floral.db-wal", "floral.db-shm"]);
    assert_eq!(legacy_aux_items(), vec!["metadata.json", "images", "backgrounds"]);
}

#[test]
fn loose_notes_move_under_notes() {
    let m = |file: &str, cat: &str| NoteMetadata {
        id: "id-1".into(),
        title: "t".into(),
        file_name: file.into(),
        category: cat.into(),
        created_at: Timestamp { secs: 0, nanos: 0 },
        updated_at: Timestamp { secs: 0, nanos: 0 },
        word_count: 0,
        preview: String::new(),
        tags: Vec::new(),
        pinned: false,
    };
    let metadata = MetadataFile { notes: vec![m("id-1_第一篇.md", ""), m("id-2_第二篇.md", "分类")] };
    let moves = loose_note_moves("/old/custom", &metadata);
    assert_eq!(moves[0], ("/old/custom/id-1_第一篇.md".to_string(), "/old/custom/notes/id-1_第一篇.md".to_string()));
    assert_eq!(moves[1], ("/old/custom/分类/id-2_第二篇.md".to_string(), "/old/custom/notes/分类/id-2_第二篇.md".to_string()));
}

#[test]
fn hidden_and_own_directories_are_not_legacy_categories() {
    assert!(legacy_category_dir("工作"));
    assert!(!legacy_category_dir(".git"));
    assert!(!legacy_category_dir("notes"));
    assert!(!legacy_category_dir("images"));
    assert!(!legacy_category_dir("backgrounds"));
    assert!(!legacy_category_dir("updates"));
}

#[test]
fn copies_into_their_own_source_are_refused() {
    assert!(check_copy_target("/a", "/b").is_ok());
    assert!(check_copy_target("/a", "/a").is_ok());
    let e = check_copy_target("/a", "/a/b").unwrap_err();
    assert_eq!(e.code, "unsafePath");
    assert_eq!(e.message, "目标目录不能位于源目录内部");
}

#[test]
fn verbatim_prefixes_are_stripped() {
    assert_eq!(strip_verbatim(r"\\?\C:\data"), r"C:\data");
    assert_eq!(strip_verbatim(r"\\?\UNC\server\share\x"), r"\\server\share\x");
    assert_eq!(strip_verbatim("/home/a"), "/home/a");
}

#[test]
fn notes_dir_called_notes_implies_its_parent() {
    assert_eq!(data_dir_from_notes_dir("/home/u/Documents/FloralNotepaper/notes"), "/home/u/Documents/FloralNotepaper");
    assert_eq!(data_dir_from_notes_dir("/home/u/notes/"), "/home/u");
    assert_eq!(data_dir_from_notes_dir("/notes"), "/");
    assert_eq!(data_dir_from_notes_dir("notes"), "");
    assert_eq!(data_dir_from_notes_dir("rel/notes"), "rel");
}

#[test]
fn other_notes_dirs_are_the_data_dir() {
    assert_eq!(data_dir_from_notes_dir("/data/mynotes"), "/data/mynotes");
    assert_eq!(data_dir_from_notes_dir("/data/notes/.."), "/data/notes/..");
    assert_eq!(data_dir_from_notes_dir(""), "");
}

#[test]
fn background_path_moves_with_the_data_dir() {
    assert_eq!(
        remap_path_prefix("/old/data/backgrounds/bg.png", "/old/data", "/new/place"),
        "/new/place/backgrounds/bg.png"
    );
    assert_eq!(remap_path_prefix("/old/data", "/old/data", "/new"), "/new/");
    assert!(paths_equal(&remap_path_prefix("/old/data/a/b.png", "/old/data/", "/n"), "/n/a/b.png"));
    assert!(path_has_prefix(&remap_path_prefix("/old/data/x.png", "/old/data", "/n"), "/n"));
}

#[test]
fn paths_outside_the_old_dir_are_kept() {
    assert_eq!(remap_path_prefix("", "/old", "/new"), "");
    assert_eq!(remap_path_prefix("/elsewhere/bg.png", "/old/data", "/new"), "/elsewhere/bg.png");
    assert_eq!(remap_path_prefix("/old/database/bg.png", "/old/data", "/new"), "/old/database/bg.png");
}

fn s(x: &str) -> String {
    x.to_string()
}

#[test]
fn environment_directories_are_trimmed_and_blank_ones_ignored() {
    assert_eq!(dir_from_env(Some(s("  /data/x \n"))), Some(s("/data/x")));
    assert_eq!(dir_from_env(Some(s("   "))), None);
    assert_eq!(dir_from_env(Some(s(""))), None);
    assert_eq!(dir_from_env(None), None);
}

#[test]
fn configuration_names_data_dir_before_notes_dir() {
    assert_eq!(data_dir_from_config(Some(s("/d")), Some(s("/n/notes"))), Some(s("/d")));
    assert_eq!(data_dir_from_config(None, Some(s("/a/notes"))), Some(s("/a")));
    assert_eq!(data_dir_from_config(None, Some(s("/a/mine"))), Some(s("/a/mine")));
    assert_eq!(data_dir_from_config(None, None), None);
}

#[test]
fn data_dir_is_resolved_in_order_of_preference() {
    let none: Vec<(String, Option<Option<String>>)> = Vec::new();
    assert_eq!(resolve_data_dir_from(Some(s("/env")), Some(s("/cfg")), &none), Some(s("/env")));
    assert_eq!(resolve_data_dir_from(Some(s("  ")), Some(s("/cfg")), &none), Some(s("/cfg")));
    let cands = vec![(s("/c1"), None), (s("/c2"), Some(None)), (s("/c3"), Some(Some(s("/x"))))];
    assert_eq!(resolve_data_dir_from(None, None, &cands), Some(s("/c2")));
    let cands = vec![(s("/c1"), None), (s("/c3"), Some(Some(s("/x")))), (s("/c2"), Some(None))];
    assert_eq!(resolve_data_dir_from(None, None, &cands), Some(s("/x")));
    let cands = vec![(s("/c1"), None), (s("/c2"), None)];
    assert_eq!(resolve_data_dir_from(None, None, &cands), None);
}

#[test]
fn default_directories_follow_the_platform() {
    assert_eq!(
        default_data_dir_from(None, true, Some(s("/Lib")), Some(s("/Docs")), Some(s("/cwd"))),
        Some(s("/Lib/花笺"))
    );
    assert_eq!(
        default_data_dir_from(None, false, Some(s("/Lib")), Some(s("/Docs")), Some(s("/cwd"))),
        Some(s("/Docs/花笺"))
    );
    assert_eq!(default_data_dir_from(None, true, None, None, Some(s("/cwd"))), Some(s("/cwd/data")));
    assert_eq!(default_data_dir_from(None, false, None, None, None), None);
    assert_eq!(default_data_dir_from(Some(s(" /e ")), true, Some(s("/Lib")), None, None), Some(s("/e")));
    assert_eq!(default_config_dir_from(None, Some(s("/cfg")), Some(s("/cwd"))), Some(s("/cfg/floral-notepaper")));
    assert_eq!(default_config_dir_from(None, None, Some(s("/cwd"))), Some(s("/cwd/floral-notepaper")));
    assert_eq!(default_config_dir_from(Some(s("/e")), None, None), Some(s("/e")));
    assert_eq!(default_config_dir_from(None, None, None), None);
}

#[test]
fn legacy_configurations_are_taken_over_by_plan() {
    let p = plan_legacy_config("/home/u/Documents/花笺", Some(s("/home/u/Documents/花笺/notes")));
    assert_eq!(p.data_dir, "/home/u/Documents/花笺");
    assert!(!p.rescue_loose_notes);
    assert!(!p.move_aux_data);
    let p = plan_legacy_config("/home/u/Documents/花笺", Some(s("/data/custom")));
    assert_eq!(p.data_dir, "/data/custom");
    assert!(p.rescue_loose_notes);
    assert!(p.move_aux_data);
    let p = plan_legacy_config("/old", None);
    assert_eq!(p.data_dir, "/old");
    assert!(!p.rescue_loose_notes);
    assert!(!p.move_aux_data);
    assert!(relocation_due("/old", "/new", true, false));
    assert!(!relocation_due("/same", "/same/", true, false));
    assert!(!relocation_due("/old", "/new", false, false));
    assert!(!relocation_due("/old", "/new", true, true));
}
