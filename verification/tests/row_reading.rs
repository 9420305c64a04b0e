use kijuku_db::attribute::{row_to_media_attribute, rows_to_media_attributes};
use kijuku_db::backup::{auto_backup_record, AutoRecordStatus};
use kijuku_db::records::format_csv_record;
use kijuku_db::crud::{row_to_media_from_sqlrow, SqlParam};
use kijuku_db::db_value::SqlRow;
use kijuku_db::error::KijukuError;
use kijuku_db::import::{import_plan, ImportRecord, ImportStep};
use kijuku_db::types::{AttributeValueType, MediaInput, MediaType};

fn text(s: &str) -> SqlParam {
    SqlParam::Text(s.to_string())
}

fn media_row() -> SqlRow {
    let mut r = SqlRow::new();
    r.set("id", SqlParam::Int(7));
    r.set("uuid", text("u-7"));
    r.set("title", text("Title"));
    r.set("media_type", text("comic"));
    r.set("path", text("a/b.zip"));
    r.set("artist", SqlParam::Null);
    r.set("file_size", SqlParam::Int(1234));
    r.set("page_count", text("12"));
    r.set("volume_number", SqlParam::Int(3));
    r.set("flag_exist", SqlParam::Int(1));
    r.set("created_at", text("2024-01-02 03:04:05"));
    r.set("updated_at", text("2024-01-02T03:04:05Z"));
    r
}

fn failure<T>(r: Result<T, KijukuError>) -> String {
    match r {
        Ok(_) => panic!("expected an error"),
        Err(KijukuError::Parse(m)) => m,
        Err(other) => panic!("not a parse error: {}", other.message()),
    }
}

#[test]
fn media_row_reads_every_column() {
    let m = row_to_media_from_sqlrow(&media_row()).unwrap();
    assert_eq!(m.id, 7);
    assert_eq!(m.uuid, "u-7");
    assert_eq!(m.title, "Title");
    assert_eq!(m.media_type, MediaType::Comic);
    assert_eq!(m.path.as_deref(), Some("a/b.zip"));
    assert_eq!(m.artist, None);
    assert_eq!(m.title_id, None);
    assert_eq!(m.file_size, Some(1234));
    assert_eq!(m.page_count, Some(12));
    assert_eq!(m.volume_number, Some(3));
    assert!(m.flag_exist);
    assert_eq!(m.created_at, 1704164645000);
    assert_eq!(m.updated_at, 1704164645000);
}

#[test]
fn media_row_with_unknown_type_is_refused() {
    let mut r = media_row();
    r.set("media_type", text("book"));
    assert_eq!(failure(row_to_media_from_sqlrow(&r)), "Invalid media_type: book");
}

#[test]
fn media_row_reports_first_missing_column() {
    let mut r = SqlRow::new();
    r.set("media_type", text("video"));
    r.set("id", SqlParam::Int(1));
    assert_eq!(failure(row_to_media_from_sqlrow(&r)), "column not found: uuid");
}

#[test]
fn media_row_type_is_read_before_id() {
    let mut r = SqlRow::new();
    r.set("id", text("x"));
    assert_eq!(failure(row_to_media_from_sqlrow(&r)), "column not found: media_type");
}

#[test]
fn media_row_with_bad_id_names_it() {
    let mut r = media_row();
    r.set("id", text("abc"));
    assert_eq!(failure(row_to_media_from_sqlrow(&r)), "expected int for id, got 'abc'");
}

#[test]
fn media_row_with_bad_timestamp_names_column() {
    let mut r = media_row();
    r.set("created_at", text("yesterday"));
    let m = failure(row_to_media_from_sqlrow(&r));
    assert!(m.starts_with("datetime parse error for created_at: "), "{}", m);
}

#[test]
fn text_column_refuses_blob() {
    let mut r = SqlRow::new();
    r.set("t", SqlParam::Blob(vec![1, 2]));
    assert_eq!(failure(r.get_text("t")), "expected text for t, got Blob([1, 2])");
}

#[test]
fn integer_reads_as_text() {
    let mut r = SqlRow::new();
    r.set("t", SqlParam::Int(-42));
    assert_eq!(r.get_text("t").unwrap(), "-42");
    assert_eq!(r.get_opt_text("missing").unwrap(), None);
}

#[test]
fn hex_text_reads_as_blob() {
    let mut r = SqlRow::new();
    r.set("h", text("0a1B"));
    r.set("odd", text("abc"));
    r.set("bad", text("0g"));
    assert_eq!(r.get_blob("h").unwrap(), vec![10, 27]);
    assert_eq!(failure(r.get_blob("odd")), "hex decode error for odd: Odd number of digits");
    assert_eq!(
        failure(r.get_blob("bad")),
        "hex decode error for bad: Invalid character 'g' at position 1"
    );
}

#[test]
fn opt_i32_cuts_to_32_bits() {
    let mut r = SqlRow::new();
    r.set("n", SqlParam::Int(4294967297));
    assert_eq!(r.get_opt_i32("n").unwrap(), Some(1));
    assert_eq!(r.get_bool("n").unwrap(), true);
}

fn attribute_row(id: i64, key: &str, value: Option<&str>, vt: &str) -> SqlRow {
    let mut r = SqlRow::new();
    r.set("media_id", SqlParam::Int(id));
    r.set("key", text(key));
    r.set("value", match value {
        Some(v) => text(v),
        None => SqlParam::Null,
    });
    r.set("value_type", text(vt));
    r
}

#[test]
fn attribute_rows_read_in_order() {
    let a = row_to_media_attribute(&attribute_row(3, "pages", Some("10"), "integer")).unwrap();
    assert_eq!(a.media_id, 3);
    assert_eq!(a.key, "pages");
    assert_eq!(a.value.as_deref(), Some("10"));
    assert_eq!(a.value_type, AttributeValueType::Integer);
    let odd = row_to_media_attribute(&attribute_row(3, "x", None, "weird")).unwrap();
    assert_eq!(odd.value_type, AttributeValueType::String);
    assert_eq!(odd.value, None);
    let rows = vec![attribute_row(1, "a", Some("1"), "boolean"), attribute_row(2, "b", None, "string")];
    let all = rows_to_media_attributes(&rows).unwrap();
    assert_eq!(all.len(), 2);
    assert_eq!(all[0].value_type, AttributeValueType::Boolean);
    assert_eq!(all[1].key, "b");
}

#[test]
fn attribute_rows_stop_at_first_bad_row() {
    let mut bad = attribute_row(2, "b", None, "string");
    bad.set("media_id", text("two"));
    let rows = vec![attribute_row(1, "a", Some("1"), "string"), bad];
    assert_eq!(failure(rows_to_media_attributes(&rows)), "expected int for media_id, got 'two'");
}

fn record(title: &str, tags: &[&str], attrs: &[(&str, &str)]) -> ImportRecord {
    ImportRecord {
        media: MediaInput { title: title.to_string(), ..Default::default() },
        tags: tags.iter().map(|t| t.to_string()).collect(),
        attributes: attrs.iter().map(|(k, v)| (k.to_string(), v.to_string())).collect(),
    }
}

fn describe(step: &ImportStep) -> String {
    match step {
        ImportStep::LinkTag { media_id, name } => format!("tag {} {}", media_id, name),
        ImportStep::SetAttribute { media_id, key, value } => format!("attr {} {}={}", media_id, key, value),
    }
}

#[test]
fn import_plan_links_tags_then_attributes() {
    let records = vec![
        record("a", &["x", "", "y"], &[("k", "v")]),
        record("b", &[], &[("p", "q"), ("r", "s")]),
        record("c", &["z"], &[]),
    ];
    let (steps, stats) = import_plan(&vec![5, 6], &records);
    let got: Vec<String> = steps.iter().map(describe).collect();
    assert_eq!(got, vec!["tag 5 x", "tag 5 y", "attr 5 k=v", "attr 6 p=q", "attr 6 r=s"]);
    assert_eq!(stats.imported, 2);
    assert_eq!(stats.tags, 2);
    assert_eq!(stats.attributes, 3);
}

#[test]
fn import_plan_of_nothing_is_empty() {
    let (steps, stats) = import_plan(&vec![], &vec![record("a", &["x"], &[])]);
    assert!(steps.is_empty());
    assert_eq!((stats.imported, stats.tags, stats.attributes), (0, 0, 0));
}

#[test]
fn auto_backup_records_name_tier_and_base() {
    let full = auto_backup_record("20240102030405-000".to_string(), "2024-01-02T03:04:05.000Z".to_string(), None, 10);
    assert_eq!(format_csv_record(&full), "20240102030405-000,2024-01-02T03:04:05.000Z,daily,full,,10,kept,");
    let recent = auto_backup_record("b2".to_string(), "t".to_string(), Some(("b1".to_string(), 3599)), 5);
    assert_eq!((recent.tier.as_str(), recent.kind.as_str(), recent.base_id.as_str()), ("recent", "diff", "b1"));
    let hourly = auto_backup_record("b3".to_string(), "t".to_string(), Some(("b1".to_string(), 3600)), 5);
    assert_eq!(hourly.tier, "hourly");
    assert_eq!(hourly.status, AutoRecordStatus::Kept);
    assert_eq!(hourly.pruned_at, "");
}

#[test]
fn test_sqlrow_getters() {
    let mut row = SqlRow::new();
    row.set("id", SqlParam::Int(42));
    row.set("title", SqlParam::Text("hello".to_string()));
    row.set("flag_exist", SqlParam::Int(1));
    row.set("opt", SqlParam::Null);

    assert_eq!(row.get_int("id").unwrap(), 42);
    assert_eq!(row.get_text("title").unwrap(), "hello");
    assert!(row.get_bool("flag_exist").unwrap());
    assert_eq!(row.get_opt_text("opt").unwrap(), None);
}
