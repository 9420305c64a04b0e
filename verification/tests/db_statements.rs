use kijuku_db::attribute::{delete_all_media_attributes, delete_media_attribute, set_media_attribute};
use kijuku_db::crud::{delete_media, SqlParam};
use kijuku_db::error::KijukuError;
use kijuku_db::exec_local::query;
use kijuku_db::hash::{delete_media_hash, delete_media_hash_statements, delete_media_hashes};
use kijuku_db::types::AttributeValueType;
use rusqlite::Connection;

fn hash_db() -> Connection {
    let conn = Connection::open_in_memory().unwrap();
    conn.execute_batch(
        "CREATE TABLE media_hashes (item_uuid TEXT, filename TEXT, time_range TEXT, content_hash BLOB,
             alternative_of TEXT, PRIMARY KEY (item_uuid, filename, time_range));
         INSERT INTO media_hashes VALUES ('u', 'a.jpg', '', x'01', NULL);
         INSERT INTO media_hashes VALUES ('u', 'b.jpg', '', x'02', 'a.jpg');
         INSERT INTO media_hashes VALUES ('u', 'c.jpg', '', x'03', NULL);
         INSERT INTO media_hashes VALUES ('v', 'a.jpg', '', x'04', NULL);",
    )
    .unwrap();
    conn
}

fn filenames(conn: &Connection) -> Vec<String> {
    let mut stmt = conn.prepare("SELECT item_uuid || ':' || filename FROM media_hashes ORDER BY 1").unwrap();
    let rows = stmt.query_map([], |r| r.get(0)).unwrap();
    rows.map(|r| r.unwrap()).collect()
}

#[test]
fn hash_delete_statements_skip_empty_keys() {
    let all = delete_media_hash_statements("u", "a.jpg", "0-10");
    assert_eq!(all.len(), 3);
    assert!(all[0].0.contains("alternative_of = ?2"));
    assert!(matches!(&all[1].1[1], SqlParam::Text(t) if t == "0-10"));
    assert!(all[2].0.contains("filename = ?2 AND time_range = ?3"));
    let whole = delete_media_hash_statements("u", "", "");
    assert_eq!(whole.len(), 1);
    assert_eq!(whole[0].1.len(), 3);
}

#[test]
fn deleting_a_hash_takes_its_alternatives() {
    let conn = hash_db();
    delete_media_hash(&conn, "u", "a.jpg", "").unwrap();
    assert_eq!(filenames(&conn), vec!["u:c.jpg", "v:a.jpg"]);
    delete_media_hashes(&conn, "u").unwrap();
    assert_eq!(filenames(&conn), vec!["v:a.jpg"]);
}

#[test]
fn hash_delete_without_table_is_a_database_error() {
    let conn = Connection::open_in_memory().unwrap();
    assert!(matches!(delete_media_hashes(&conn, "u"), Err(KijukuError::Database(_))));
}

fn attribute_db() -> Connection {
    let conn = Connection::open_in_memory().unwrap();
    conn.execute_batch(
        "CREATE TABLE media_attributes (media_id INTEGER, key TEXT, value TEXT, value_type TEXT,
             PRIMARY KEY (media_id, key));",
    )
    .unwrap();
    conn
}

fn attribute(conn: &Connection, id: i64, key: &str) -> Option<(Option<String>, String)> {
    conn.query_row(
        "SELECT value, value_type FROM media_attributes WHERE media_id = ?1 AND key = ?2",
        [&id as &dyn rusqlite::ToSql, &key],
        |r| Ok((r.get(0)?, r.get(1)?)),
    )
    .ok()
}

#[test]
fn setting_an_attribute_twice_updates_it() {
    let conn = attribute_db();
    set_media_attribute(&conn, 1, "pages", Some("10"), Some(AttributeValueType::Integer)).unwrap();
    assert_eq!(attribute(&conn, 1, "pages"), Some((Some("10".to_string()), "integer".to_string())));
    set_media_attribute(&conn, 1, "pages", None, None).unwrap();
    assert_eq!(attribute(&conn, 1, "pages"), Some((None, "string".to_string())));
    set_media_attribute(&conn, 1, "lang", Some("ja"), None).unwrap();
    delete_media_attribute(&conn, 1, "pages").unwrap();
    assert_eq!(attribute(&conn, 1, "pages"), None);
    assert!(attribute(&conn, 1, "lang").is_some());
    delete_all_media_attributes(&conn, 1).unwrap();
    assert_eq!(attribute(&conn, 1, "lang"), None);
}

#[test]
fn deleting_missing_media_is_not_found() {
    let conn = Connection::open_in_memory().unwrap();
    match delete_media(&conn, 5) {
        Err(KijukuError::NotFound(m)) => assert_eq!(m, "メディアが見つかりません: id=5"),
        _ => panic!("expected NotFound"),
    }
}

#[test]
fn query_refuses_real_values_by_column() {
    let conn = Connection::open_in_memory().unwrap();
    match query(&conn, "SELECT 1 AS n, 1.5 AS x", &[]) {
        Err(KijukuError::Parse(m)) => assert_eq!(m, "unsupported REAL value in column x"),
        _ => panic!("expected a parse error"),
    }
    let rows = query(&conn, "SELECT 7 AS n, 'a' AS t", &[]).ok().unwrap();
    assert_eq!(rows.len(), 1);
    assert_eq!(rows[0].get_int("n").unwrap(), 7);
}
