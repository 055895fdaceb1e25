use floral_notepaper::db::{close_db, is_initialized, DbRegistry};

#[test]
fn connections_are_kept_one_per_directory() {
    let mut registry = DbRegistry::new();
    assert!(!is_initialized(&registry, "/data"));
    let first = rusqlite::Connection::open_in_memory().unwrap();
    assert!(registry.register("/data".into(), first));
    assert!(is_initialized(&registry, "/data"));
    let second = rusqlite::Connection::open_in_memory().unwrap();
    assert!(!registry.register("/data".into(), second));
    let other = rusqlite::Connection::open_in_memory().unwrap();
    assert!(registry.register("/other".into(), other));
    let conn = registry.connection("/data").expect("open connection");
    let one: i64 = conn.query_row("SELECT 1", [], |row| row.get(0)).unwrap();
    assert_eq!(one, 1);
    close_db(&mut registry, "/data");
    assert!(!is_initialized(&registry, "/data"));
    assert!(is_initialized(&registry, "/other"));
    assert!(registry.connection("/data").is_none());
    close_db(&mut registry, "/missing");
    assert!(is_initialized(&registry, "/other"));
}
