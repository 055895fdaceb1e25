use floral_notepaper::db::stored_instant;
use floral_notepaper::time::Timestamp;
use floral_notepaper::db::{db_fts_is_current, db_notes_is_empty, escape_fts_query};

#[test]
fn escapes_each_search_term_without_exposing_fts_operators() {
    assert_eq!(escape_fts_query("齿轮 强度"), "\"齿轮\" AND \"强度\"");
    assert_eq!(
        escape_fts_query("a\"b OR c"),
        "\"a\"\"b\" AND \"OR\" AND \"c\""
    );
}

#[test]
fn blank_search_text_matches_nothing() {
    assert_eq!(escape_fts_query("   "), "\"__floral_no_match__\"");
    assert_eq!(escape_fts_query(""), "\"__floral_no_match__\"");
}

#[test]
fn index_is_current_only_with_the_same_fingerprint() {
    assert!(db_fts_is_current(&Some("abc".to_string()), "abc"));
    assert!(!db_fts_is_current(&Some("abc".to_string()), "abd"));
    assert!(!db_fts_is_current(&None, "abc"));
    assert!(db_notes_is_empty(0));
    assert!(!db_notes_is_empty(3));
}

#[test]
fn stored_instants_are_read_or_fall_back_to_the_epoch() {
    assert_eq!(stored_instant("2026-01-02T03:04:05.000000006+00:00"), Timestamp { secs: 1767323045, nanos: 6 });
    assert_eq!(stored_instant("2026-01-02T11:04:05+08:00"), Timestamp { secs: 1767323045, nanos: 0 });
    assert_eq!(stored_instant("damaged"), Timestamp { secs: 0, nanos: 0 });
}
