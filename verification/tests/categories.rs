use floral_notepaper::notes::NoteStore;

fn store() -> NoteStore {
    NoteStore::new("/c".into(), "/d".into())
}

#[test]
fn categories_are_listed_by_name() {
    let listed = store().list_categories(vec!["学习".into(), "Work".into(), "archive".into()]);
    assert_eq!(listed, vec!["Work".to_string(), "archive".to_string(), "学习".to_string()]);
}

#[test]
fn new_categories_are_trimmed_and_checked() {
    assert_eq!(store().create_category("  读书  ").unwrap(), "/d/notes/读书");
    assert_eq!(store().create_category("   ").unwrap_err().code, "categoryNameEmpty");
    assert_eq!(store().create_category("a/../b").unwrap_err().code, "categoryNameInvalidChars");
}

#[test]
fn renames_are_checked_against_existing_categories() {
    let existing = vec!["旧".to_string(), "占用".to_string()];
    let r = store().rename_category("旧", " 新 ", &existing).unwrap();
    assert_eq!(r.old_path, "/d/notes/旧");
    assert_eq!(r.new_path, "/d/notes/新");
    assert_eq!(r.new_name, "新");
    let e = store().rename_category("缺失", "新", &existing).unwrap_err();
    assert_eq!(e.code, "categoryNotFound");
    assert_eq!(e.message, "分类「缺失」不存在");
    let e = store().rename_category("旧", "占用", &existing).unwrap_err();
    assert_eq!(e.code, "categoryAlreadyExists");
    assert_eq!(store().rename_category("..", "x", &existing).unwrap_err().code, "categoryNameInvalidChars");
}

#[test]
fn deleting_refuses_paths_outside_the_notes_directory() {
    assert!(store().delete_category("工作", true, "/d/notes", "/d/notes/工作").is_ok());
    assert!(store().delete_category("工作", false, "/d/notes", "/elsewhere").is_ok());
    let e = store().delete_category("工作", true, "/d/notes", "/etc").unwrap_err();
    assert_eq!(e.code, "unsafePath");
    assert_eq!(e.message, "拒绝删除「/d/notes/工作」：路径不在数据目录内");
    assert!(store().delete_category("", true, "/d/notes", "/d/notes").is_err());
}
