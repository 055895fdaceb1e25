use floral_notepaper::attachments::{
    add_attachment, delete_attachment, delete_note_attachments, list_attachments,
    move_note_attachments, safe_file_name, Attachment,
};
use floral_notepaper::notes::NoteStore;
use floral_notepaper::time::Timestamp;

fn att(id: &str, note: &str, secs: i64) -> Attachment {
    Attachment {
        id: id.into(),
        note_id: note.into(),
        name: format!("{id}.pdf"),
        file_name: format!("{id}_{id}.pdf"),
        size: 10,
        created_at: Timestamp { secs, nanos: 0 },
    }
}

#[test]
fn file_names_are_sanitized() {
    assert_eq!(safe_file_name("资料.pdf"), "资料.pdf");
    assert_eq!(safe_file_name("a<b>c:d\"e/f\\g|h?i*j"), "a_b_c_d_e_f_g_h_i_j");
    assert_eq!(safe_file_name(" ..hidden. "), "hidden");
    assert_eq!(safe_file_name("..."), "attachment");
    assert_eq!(safe_file_name("tab\there"), "tab_here");
    let long = "x".repeat(200);
    assert_eq!(safe_file_name(&long).chars().count(), 120);
}

#[test]
fn attachment_is_listed_and_can_be_removed() {
    let mut list: Vec<Attachment> = Vec::new();
    let a = add_attachment(&mut list, "note-a", true, Some("资料.pdf".into()), 9).expect("add attachment");
    assert_eq!(a.name, "资料.pdf");
    assert!(a.file_name.starts_with(&a.id));
    assert!(a.file_name.ends_with("_资料.pdf"));
    assert_eq!(a.id.len(), 36);
    let present = vec![true; list.len()];
    assert_eq!(list_attachments(&list, &present, "note-a").expect("list").len(), 1);
    let removed = delete_attachment(&mut list, "note-a", &a.id).expect("delete attachment");
    assert_eq!(removed.id, a.id);
    let present = vec![true; list.len()];
    assert!(list_attachments(&list, &present, "note-a").expect("list after delete").is_empty());
}

#[test]
fn adding_is_refused_for_missing_large_or_unsafe_sources() {
    let mut list: Vec<Attachment> = Vec::new();
    assert_eq!(add_attachment(&mut list, "n", false, None, 1).unwrap_err().code, "attachmentSource");
    assert_eq!(
        add_attachment(&mut list, "n", true, None, 100 * 1024 * 1024 + 1).unwrap_err().code,
        "attachmentTooLarge"
    );
    assert_eq!(add_attachment(&mut list, "../x", true, None, 1).unwrap_err().code, "invalidNoteId");
    assert!(list.is_empty());
    let a = add_attachment(&mut list, "n", true, None, 100 * 1024 * 1024).unwrap();
    assert_eq!(a.name, "attachment");
}

#[test]
fn listing_shows_present_files_of_the_note_newest_first() {
    let all = vec![att("old", "n", 10), att("other", "m", 30), att("new", "n", 20), att("gone", "n", 40)];
    let present = vec![true, true, true, false];
    let listed = list_attachments(&all, &present, "n").unwrap();
    let ids: Vec<&str> = listed.iter().map(|a| a.id.as_str()).collect();
    assert_eq!(ids, vec!["new", "old"]);
    assert_eq!(list_attachments(&all, &present, "").unwrap_err().code, "invalidNoteId");
}

#[test]
fn deleting_an_unknown_attachment_fails_and_changes_nothing() {
    let mut list = vec![att("a", "n", 1)];
    let e = delete_attachment(&mut list, "m", "a").unwrap_err();
    assert_eq!(e.code, "attachmentNotFound");
    assert_eq!(e.message, "找不到附件");
    assert_eq!(list.len(), 1);
}

#[test]
fn deleting_a_note_drops_its_attachments() {
    let mut list = vec![att("a", "n", 1), att("b", "m", 2), att("c", "n", 3)];
    delete_note_attachments(&mut list, "n").unwrap();
    assert_eq!(list.len(), 1);
    assert_eq!(list[0].id, "b");
    let mut list = vec![att("a", "n", 1)];
    assert!(delete_note_attachments(&mut list, "..").is_err());
}

#[test]
fn moving_attachments_retargets_only_the_source_note() {
    let mut list = vec![att("a", "src", 1), att("b", "other", 2)];
    move_note_attachments(&mut list, "src", "dst").unwrap();
    assert_eq!(list[0].note_id, "dst");
    assert_eq!(list[1].note_id, "other");
    assert_eq!(list[0].file_name, "a_a.pdf");
    assert!(move_note_attachments(&mut list, "src", "a/b/c").is_err());
    assert_eq!(list[0].note_id, "dst");
}

#[test]
fn attachment_path_points_into_the_notes_attachment_directory() {
    let store = NoteStore::new("/cfg".into(), "/data".into());
    let all = vec![att("a", "n", 1)];
    let present = vec![true];
    assert_eq!(
        store.attachment_path(&all, &present, "n", "a").unwrap(),
        "/data/attachments/n/a_a.pdf"
    );
    assert_eq!(
        store.attachment_path(&all, &present, "n", "zzz").unwrap_err().code,
        "attachmentNotFound"
    );
    assert_eq!(
        store.attachment_path(&all, &vec![false], "n", "a").unwrap_err().code,
        "attachmentNotFound"
    );
}
