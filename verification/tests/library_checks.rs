use kijuku_db::backup::{diff_backup_name, full_backup_name, parse_backup_filename, BackupManager, BackupOptions};
use kijuku_db::config::Target;
use kijuku_db::crud::{build_create_media_sql, calculate_volume_number, SqlParam};
use kijuku_db::diff::{compute_diff, BackupSnapshot, DiffOptions};
use kijuku_db::error::KijukuError;
use kijuku_db::file_ops::{media_cp, media_mv, media_sync, FileOpOptions, FileOpStep, SyncSource};
use kijuku_db::hash::{bytes_to_hex, hex_to_bytes};
use kijuku_db::page_diff::{apply_page_diff, create_diff_file, encode_page_diff, get_sqlite_page_size, read_diff_base_id};
use kijuku_db::prompt::{build_diff_explanation_prompt, DiffExplanationPromptOptions};
use kijuku_db::records::{format_csv_record, parse_csv_record};
use kijuku_db::backup::{AutoRecord, AutoRecordStatus};
use kijuku_db::summary::{summarize_diff, DiffTotals};
use kijuku_db::file_ops::{check_pair, media_cp_within, media_mv_within, media_sync_within};
use kijuku_db::db_value::parse_timestamp;
use kijuku_db::crud::get_media_sql;
use kijuku_db::config::config_paths;
use kijuku_db::gate::{evaluate_gate, GateConfig, ObserveResult};
use kijuku_db::transfer::{new_media_id, new_tag_id, record_created, verify_transfer, IdMap, MediaBundle};
use kijuku_db::types::{AttributeValueType, Media, MediaAttribute, MediaHash, MediaInput, MediaType, Tag};
use kijuku_db::listing::BackupFileEntry;
use kijuku_db::backup::BackupScope;
use kijuku_db::hash::path_to_hash;
use kijuku_db::hash::{music_hash_inputs, video_hash_inputs};
use kijuku_db::hash::{comic_hash_inputs, comic_whole_hash};
use kijuku_db::hash::image_names_in_order;
use kijuku_db::hash::is_image_file;
use kijuku_db::import::{build_import_record, parse_int_text, parse_opt_int, split_tags, ImportRow};

fn media(id: i64, uuid: &str, title: &str) -> Media {
    Media {
        id,
        uuid: uuid.to_string(),
        title: title.to_string(),
        title_id: None,
        path: None,
        media_type: MediaType::Comic,
        thumbnail_path: None,
        artist: None,
        artist_id: None,
        description: None,
        file_size: None,
        duration_sec: None,
        page_count: None,
        series: None,
        volume_number: None,
        volume_text: None,
        volume_title: None,
        magazine: None,
        magazine_id: None,
        language: None,
        source: None,
        external_id: None,
        artist_en: None,
        title_en: None,
        chapters: None,
        extension: None,
        flag_exist: true,
        created_at: 0,
        updated_at: 0,
        title_pron: None,
        artist_pron: None,
        series_pron: None,
    }
}

fn other_text(e: KijukuError) -> String {
    match e {
        KijukuError::Other(m) => m,
        _ => panic!("expected an Other error"),
    }
}

// ---- differential backup files ----

/// A database image: an SQLite header recording `page_size`, then bytes.
fn image(page_size: u16, pages: &[u8]) -> Vec<u8> {
    let mut v = vec![0u8; 18];
    v[16] = (page_size >> 8) as u8;
    v[17] = (page_size & 0xff) as u8;
    v.extend_from_slice(pages);
    v
}

#[test]
fn page_diff_restores_the_current_file() {
    let base: Vec<u8> = (0..64u8).collect();
    let mut current = base.clone();
    current[20] = 0xff;
    current.extend_from_slice(&[7u8; 32]);
    let diff = encode_page_diff("20260101000000-000", 16, &base, &current);
    // header, then pages 2, 5 and 6 (page 2 changed, 5 and 6 are new)
    assert_eq!(diff.len(), 30 + 3 * (4 + 16));
    assert_eq!(&diff[18..22], &[0, 0, 0, 16]);
    assert_eq!(&diff[22..26], &[0, 0, 0, 6]);
    assert_eq!(&diff[26..30], &[0, 0, 0, 3]);
    assert_eq!(&diff[30..34], &[0, 0, 0, 2]);
    let restored = apply_page_diff(&base, &diff).unwrap();
    assert_eq!(restored, current);
}

#[test]
fn page_diff_drops_a_partial_last_page() {
    let base = vec![1u8; 8];
    let current = vec![2u8; 13];
    let diff = encode_page_diff("b", 4, &base, &current);
    let restored = apply_page_diff(&base, &diff).unwrap();
    assert_eq!(restored, vec![2u8; 12]);
}

#[test]
fn page_diff_of_an_unchanged_file_has_no_entries() {
    let base: Vec<u8> = (0..40u8).collect();
    let diff = encode_page_diff("same", 8, &base, &base);
    assert_eq!(diff.len(), 30);
    assert_eq!(apply_page_diff(&base, &diff).unwrap(), base);
}

#[test]
fn page_diff_header_names_the_base() {
    let base = image(16, &[0u8; 30]);
    let diff = create_diff_file("20260323120530-456", &base, &base).unwrap();
    assert_eq!(read_diff_base_id(&diff).unwrap(), "20260323120530-456");
    assert_eq!(&diff[18..22], &[0, 0, 0, 16]);
}

#[test]
fn page_diff_base_id_is_cut_to_eighteen_bytes() {
    let diff = encode_page_diff("0123456789abcdefghij", 4, &[], &[]);
    assert_eq!(read_diff_base_id(&diff).unwrap(), "0123456789abcdefgh");
}

#[test]
fn page_diff_base_id_of_bad_utf8_is_empty() {
    let mut head = vec![b'a'; 18];
    head[3] = 0xff;
    assert_eq!(read_diff_base_id(&head).unwrap(), "");
}

#[test]
fn page_diff_short_header_errors() {
    match read_diff_base_id(&[1, 2, 3]) {
        Err(KijukuError::Io(m)) => assert_eq!(m, "failed to fill whole buffer"),
        _ => panic!("expected an I/O error"),
    }
    let e = apply_page_diff(&[], &[0u8; 10]).unwrap_err();
    assert_eq!(other_text(e), "Invalid diff file: failed to fill whole buffer");
    let e = create_diff_file("x", &[0u8; 5], &[]).unwrap_err();
    assert_eq!(other_text(e), "Failed to read page size: failed to fill whole buffer");
}

#[test]
fn page_diff_truncated_entry_errors() {
    let base = vec![0u8; 8];
    let current = vec![9u8; 8];
    let diff = encode_page_diff("b", 4, &base, &current);
    let e = apply_page_diff(&base, &diff[..32]).unwrap_err();
    assert_eq!(other_text(e), "Diff read error: failed to fill whole buffer");
    let e = apply_page_diff(&base, &diff[..36]).unwrap_err();
    assert_eq!(other_text(e), "Diff page read error: failed to fill whole buffer");
    let e = apply_page_diff(&base, &diff[..40]).unwrap_err();
    assert_eq!(other_text(e), "Diff read error: failed to fill whole buffer");
}

#[test]
fn sqlite_page_size_from_header() {
    assert_eq!(get_sqlite_page_size(&image(4096, &[])), Some(4096));
    assert_eq!(get_sqlite_page_size(&image(1, &[])), Some(65536));
    assert_eq!(get_sqlite_page_size(&[0u8; 17]), None);
}

// ---- checking a transfer ----

fn bundle(m: Media, tags: &[&str]) -> MediaBundle {
    MediaBundle {
        media: m,
        tag_names: tags.iter().map(|t| t.to_string()).collect(),
        attributes: vec![],
        hashes: vec![],
    }
}

#[test]
fn verify_transfer_counts_the_source() {
    let src = vec![bundle(media(1, "u1", "a"), &["x", "y"]), bundle(media(2, "u2", "b"), &["x"])];
    let dst = vec![bundle(media(7, "u2", "b"), &["x"]), bundle(media(9, "u1", "a"), &["y", "x"])];
    let tags = vec!["x".to_string(), "y".to_string()];
    let dtags = vec!["y".to_string(), "x".to_string()];
    let r = verify_transfer(&src, &dst, &tags, &dtags).unwrap();
    assert_eq!((r.media, r.tags, r.media_tags, r.attributes, r.hashes), (2, 2, 3, 0, 0));
    assert!(r.verified);
}

#[test]
fn verify_transfer_reports_each_difference() {
    let tags = vec!["x".to_string()];
    let e = verify_transfer(&vec![bundle(media(1, "u1", "a"), &[])], &vec![], &tags, &tags).unwrap_err();
    assert_eq!(other_text(e), "media 件数不一致: source=1 dest=0");

    let e = verify_transfer(&vec![bundle(media(1, "u1", "a"), &[])], &vec![bundle(media(1, "u9", "a"), &[])], &tags, &tags)
        .unwrap_err();
    assert_eq!(other_text(e), "dest に uuid=u1 の media がない");

    let e = verify_transfer(&vec![bundle(media(1, "u1", "a"), &[])], &vec![bundle(media(5, "u1", "b\"c"), &[])], &tags, &tags)
        .unwrap_err();
    assert_eq!(other_text(e), "media 内容不一致 (uuid=u1): title source=\"a\" dest=\"b\\\"c\"");

    let e = verify_transfer(&vec![], &vec![], &vec!["b".to_string(), "a".to_string(), "b".to_string()], &vec![])
        .unwrap_err();
    assert_eq!(other_text(e), "tags 不一致: source={\"a\", \"b\"} dest={}");

    let e = verify_transfer(&vec![bundle(media(1, "u1", "a"), &["x"])], &vec![bundle(media(3, "u1", "a"), &[])], &tags, &tags)
        .unwrap_err();
    assert_eq!(other_text(e), "media_tags 不一致 (uuid=u1): source={\"x\"} dest={}");

    let mut with_attr = bundle(media(1, "u1", "a"), &[]);
    with_attr.attributes.push(MediaAttribute {
        media_id: 1,
        key: "k".to_string(),
        value: Some("v".to_string()),
        value_type: AttributeValueType::String,
    });
    let e = verify_transfer(&vec![with_attr], &vec![bundle(media(3, "u1", "a"), &[])], &tags, &tags).unwrap_err();
    assert_eq!(other_text(e), "attributes 不一致 (uuid=u1)");

    let mut with_hash = bundle(media(1, "u1", "a"), &[]);
    with_hash.hashes.push(MediaHash {
        item_uuid: "u1".to_string(),
        filename: String::new(),
        time_range: String::new(),
        content_hash: vec![1, 2],
        alternative_of: None,
        embedding: None,
        created_at: String::new(),
        updated_at: String::new(),
    });
    let e = verify_transfer(&vec![with_hash], &vec![bundle(media(3, "u1", "a"), &[])], &tags, &tags).unwrap_err();
    assert_eq!(other_text(e), "hashes 不一致 (uuid=u1)");
}

#[test]
fn id_map_keeps_the_last_id_of_a_key() {
    let mut ids = IdMap::new();
    ids.insert("a", 1);
    ids.insert("b", 2);
    ids.insert("a", 3);
    assert_eq!(ids.get("a"), Some(3));
    assert_eq!(ids.get("b"), Some(2));
    assert_eq!(ids.get("c"), None);
}

#[test]
fn new_ids_of_created_media_and_tags() {
    let mut ids = IdMap::new();
    record_created(&mut ids, &vec![media(10, "u1", "a"), media(11, "u2", "b")]);
    assert_eq!(new_media_id(&ids, "u2").unwrap(), 11);
    assert_eq!(other_text(new_media_id(&ids, "u3").unwrap_err()), "uuid u3 の新 id が不明");
    let mut tag_ids = IdMap::new();
    tag_ids.insert("fav", 4);
    assert_eq!(new_tag_id(&tag_ids, 7, "fav").unwrap(), 4);
    assert_eq!(
        other_text(new_tag_id(&tag_ids, -7, "old").unwrap_err()),
        "media(id=-7) のタグ 'old' に対応する dest タグがない"
    );
}

// ---- file operations ----

fn describe(s: &FileOpStep) -> String {
    match s {
        FileOpStep::Copy { from, to } => format!("copy {} -> {}", from, to),
        FileOpStep::Move { from, to } => format!("move {} -> {}", from, to),
        FileOpStep::Trash { path, reason } => format!("trash {} ({})", path, reason),
    }
}

#[test]
fn copy_and_move_plans() {
    let r = media_cp("lonely.txt", "dst.txt", true, &FileOpOptions::default());
    assert!(!r.applied);
    let steps: Vec<String> = r.steps.iter().map(describe).collect();
    assert_eq!(steps, vec!["trash dst.txt (media_cp overwrite)", "copy lonely.txt -> dst.txt"]);
    let r = media_mv("a", "b", false, &FileOpOptions { apply: true, update_db: false });
    assert!(r.applied);
    let steps: Vec<String> = r.steps.iter().map(describe).collect();
    assert_eq!(steps, vec!["move a -> b"]);
}

#[test]
fn sync_plan_trashes_extras_and_copies_changes() {
    let srcs = vec![
        SyncSource { rel: "a.txt".to_string(), differs: true, target_exists: true },
        SyncSource { rel: "sub/b.txt".to_string(), differs: true, target_exists: false },
        SyncSource { rel: "same.txt".to_string(), differs: false, target_exists: true },
    ];
    let dsts = vec!["a.txt".to_string(), "extra.txt".to_string(), "same.txt".to_string()];
    let r = media_sync("src", "dst", &srcs, &dsts, &FileOpOptions::default());
    let steps: Vec<String> = r.steps.iter().map(describe).collect();
    assert_eq!(
        steps,
        vec![
            "trash dst/extra.txt (media_sync extra)",
            "trash dst/a.txt (media_sync update)",
            "copy src/a.txt -> dst/a.txt",
            "copy src/sub/b.txt -> dst/sub/b.txt",
        ]
    );
    let one = vec![SyncSource { rel: "sub/b.txt".to_string(), differs: true, target_exists: false }];
    let r = media_sync("", "out", &one, &vec![], &FileOpOptions::default());
    let steps: Vec<String> = r.steps.iter().map(describe).collect();
    assert_eq!(steps, vec!["copy sub/b.txt -> out/sub/b.txt"]);
}

// ---- laws on concrete values ----

#[test]
fn backup_names_parse_back() {
    let full = full_backup_name("kijuku", "20260101010101-001", None);
    let p = parse_backup_filename(&full, "kijuku").unwrap();
    assert_eq!((p.id.as_str(), p.extension.as_str(), p.label), ("20260101010101-001", "db", None));
    let diff = diff_backup_name("kijuku", "20260101010101-001");
    let p = parse_backup_filename(&diff, "kijuku").unwrap();
    assert_eq!((p.id.as_str(), p.extension.as_str()), ("20260101010101-001", "diff"));
    let labelled = full_backup_name("kijuku", "20260101010101-001", Some("before import"));
    let p = parse_backup_filename(&labelled, "kijuku").unwrap();
    assert_eq!(p.label, Some("before_import".to_string()));
}

#[test]
fn auto_record_line_round_trip() {
    let r = AutoRecord {
        id: "20260101010101-001".to_string(),
        created_at: "2026-01-01T01:01:01.001Z".to_string(),
        tier: "hourly".to_string(),
        kind: "diff".to_string(),
        base_id: "20260101000000-000".to_string(),
        size_bytes: 4096,
        status: AutoRecordStatus::Pruned,
        pruned_at: "2026-01-02T00:00:00.000Z".to_string(),
    };
    let line = format_csv_record(&r);
    let back = parse_csv_record(&line).unwrap();
    assert_eq!(back.id, r.id);
    assert_eq!(back.kind, "diff");
    assert_eq!(back.base_id, r.base_id);
    assert_eq!(back.size_bytes, 4096);
    assert_eq!(back.status, AutoRecordStatus::Pruned);
    assert_eq!(back.pruned_at, r.pruned_at);
}

#[test]
fn hex_round_trip() {
    let bytes: Vec<u8> = vec![0, 1, 0x7f, 0x80, 0xff];
    assert_eq!(hex_to_bytes(&bytes_to_hex(&bytes)).unwrap(), bytes);
    assert_eq!(hex_to_bytes("ABcd").unwrap(), vec![0xab, 0xcd]);
}

#[test]
fn backup_spacing_follows_the_interval() {
    let mut m = BackupManager::new("/d/k.db".to_string(), "k".to_string(), "/d/backups".to_string(), BackupOptions::default());
    assert!(m.record_operation(1_000));
    m.record_backup_time(1_000);
    assert!(!m.record_operation(1_000 + 3_599_999));
    assert_eq!(m.get_time_until_next_backup(1_000 + 3_599_999), Some(1));
    assert!(m.record_operation(1_000 + 3_600_000));
    assert_eq!(m.get_time_until_next_backup(1_000 + 3_600_000), Some(0));
}

#[test]
fn diff_of_a_snapshot_with_itself_is_empty() {
    let mut s = BackupSnapshot::new();
    s.insert_tag(Tag { id: 1, name: "a".to_string() });
    s.insert_media(media(1, "u1", "t"));
    s.insert_media_tag(1, 1);
    let d = compute_diff(&s, &s, &DiffOptions::default());
    assert_eq!(d.summary.media.total() + d.summary.tags.total() + d.summary.media_tags.total(), 0);
}

// ---- values that go through the trusted items ----

#[test]
fn volume_numbers() {
    assert_eq!(calculate_volume_number(Some("5")), Some(5));
    assert_eq!(calculate_volume_number(Some(" 10 ")), Some(10));
    assert_eq!(calculate_volume_number(Some("1.5")), None);
    assert_eq!(calculate_volume_number(Some("上巻")), None);
    assert_eq!(calculate_volume_number(None), None);
}

#[test]
fn created_media_get_a_fresh_uuid() {
    let input = MediaInput { title: "t".to_string(), volume_text: Some("3".to_string()), ..Default::default() };
    let (sql, params) = build_create_media_sql(&input);
    assert!(sql.starts_with("INSERT INTO media"));
    assert_eq!(params.len(), 29);
    match &params[0] {
        SqlParam::Text(u) => assert_eq!(u.len(), 36),
        _ => panic!("expected a uuid"),
    }
    match &params[13] {
        SqlParam::Int(v) => assert_eq!(*v, 3),
        _ => panic!("expected a volume number"),
    }
}

#[test]
fn target_parse_trims_unicode_whitespace() {
    assert_eq!(Target::parse("\u{3000}stg\t"), Some(Target::Stg));
}

#[test]
fn prompt_quotes_attribute_values() {
    let prod = BackupSnapshot::new();
    let mut stg = BackupSnapshot::new();
    stg.insert_attribute(MediaAttribute {
        media_id: 3,
        key: "rating".to_string(),
        value: Some("5".to_string()),
        value_type: AttributeValueType::Integer,
    });
    let diff = compute_diff(&prod, &stg, &DiffOptions::default());
    let summary = summarize_diff(&diff);
    let prompt = build_diff_explanation_prompt(&diff, &summary, &DiffExplanationPromptOptions::default());
    assert!(prompt.contains("- media_id=3 key=\"rating\" value=Some(\"5\")"));
}

// ---- content hashes ----

#[test]
fn image_files_by_extension_in_any_case() {
    assert!(is_image_file("page01.JPG"));
    assert!(is_image_file("cover.jpeg"));
    assert!(is_image_file("a.Png"));
    assert!(is_image_file("b.gif"));
    assert!(is_image_file("c.WEBP"));
    assert!(!is_image_file("notes.txt"));
    assert!(!is_image_file("jpg"));
}

#[test]
fn image_names_come_sorted_byte_wise() {
    let names: Vec<String> = ["b.png", "a.JPG", "notes.txt", "Z.gif", "a.JPG"].iter().map(|s| s.to_string()).collect();
    assert_eq!(image_names_in_order(&names), vec!["Z.gif", "a.JPG", "a.JPG", "b.png"]);
}

#[test]
fn comic_hash_is_the_digest_of_the_page_hashes() {
    assert_eq!(
        bytes_to_hex(&comic_whole_hash(&vec![])),
        "e3b0c44298fc1c149afbf4c8996fb92427ae41e4649b934ca495991b7852b855"
    );
    assert_eq!(
        bytes_to_hex(&comic_whole_hash(&vec![b"ab".to_vec(), b"c".to_vec()])),
        "ba7816bf8f01cfea414140de5dae2223b00361a396177a9cb410ff61f20015ad"
    );
    let rows = comic_hash_inputs("u", &vec![("p1.jpg".to_string(), b"ab".to_vec()), ("p2.jpg".to_string(), b"c".to_vec())]);
    assert_eq!(rows.len(), 3);
    assert_eq!(rows[0].filename, "p1.jpg");
    assert_eq!(rows[1].content_hash, b"c".to_vec());
    assert_eq!(rows[2].filename, "");
    assert_eq!(
        bytes_to_hex(&rows[2].content_hash),
        "ba7816bf8f01cfea414140de5dae2223b00361a396177a9cb410ff61f20015ad"
    );
}

#[test]
fn music_and_video_hash_rows() {
    let rows = music_hash_inputs("u1", vec![1], vec![2]);
    assert_eq!(rows.len(), 2);
    assert_eq!((rows[0].time_range.as_str(), rows[1].time_range.as_str()), ("", "0.0-30.0"));
    assert_eq!(rows[1].content_hash, vec![2]);
    let rows = video_hash_inputs("u2", vec![3]);
    assert_eq!(rows.len(), 1);
    assert_eq!(rows[0].item_uuid, "u2");
}

#[test]
fn which_media_get_hashed() {
    let mut m = media(1, "u", "t");
    assert_eq!(path_to_hash(&m, false, false), None);
    m.path = Some("/m/a.mp4".to_string());
    assert_eq!(path_to_hash(&m, false, false), Some("/m/a.mp4".to_string()));
    assert_eq!(path_to_hash(&m, false, true), None);
    assert_eq!(path_to_hash(&m, true, true), Some("/m/a.mp4".to_string()));
    m.flag_exist = false;
    assert_eq!(path_to_hash(&m, true, false), None);
    m.flag_exist = true;
    m.path = Some(String::new());
    assert_eq!(path_to_hash(&m, true, false), None);
}

#[test]
fn todays_full_backup_is_the_newest_of_the_day() {
    let manager = BackupManager::new("/d/test.db".to_string(), "test".to_string(), "/d/b".to_string(), BackupOptions::default());
    let entry = |scope: BackupScope, name: &str| BackupFileEntry {
        scope,
        name: name.to_string(),
        path: format!("/d/b/{}", name),
        modified_ms: 5,
        diff_base_id: None,
    };
    let files = vec![
        entry(BackupScope::Auto, "test.20260622010000-000.db"),
        entry(BackupScope::Auto, "test.20260622120000-123.db"),
        entry(BackupScope::Auto, "test.20260621235959-999.db"),
        entry(BackupScope::Auto, "test.20260622130000-000.diff"),
        entry(BackupScope::Manual, "test.20260622140000-000.db"),
        entry(BackupScope::Auto, "other.20260622150000-000.db"),
    ];
    let found = manager.find_today_full_backup(&files, (2026, 6, 22)).unwrap();
    assert_eq!(found.id, "20260622120000-123");
    assert_eq!(found.created_at, 5);
    assert!(manager.find_today_full_backup(&files, (2026, 6, 23)).is_none());
}

// ---- bulk import rows ----

#[test]
fn integers_are_read_as_rust_reads_them() {
    let t = |s: &str| parse_int_text(s, i64::MIN, i64::MAX);
    assert_eq!(t("42"), Ok(42));
    assert_eq!(t("+7"), Ok(7));
    assert_eq!(t("-0"), Ok(0));
    assert_eq!(t("-9223372036854775808"), Ok(i64::MIN));
    assert_eq!(t("-"), Err("invalid digit found in string".to_string()));
    assert_eq!(t("1_0"), Err("invalid digit found in string".to_string()));
    assert_eq!(t(""), Err("cannot parse integer from empty string".to_string()));
    assert_eq!(t("9223372036854775808"), Err("number too large to fit in target type".to_string()));
    assert_eq!(t("-9223372036854775809"), Err("number too small to fit in target type".to_string()));
    assert_eq!(t("99999999999999999999x"), Err("number too large to fit in target type".to_string()));
    assert_eq!(parse_int_text("2147483648", i32::MIN as i64, i32::MAX as i64), Err("number too large to fit in target type".to_string()));
}

#[test]
fn optional_number_columns() {
    assert_eq!(parse_opt_int(None, "page_count", 0, 10), Ok(None));
    assert_eq!(parse_opt_int(Some(&String::new()), "page_count", 0, 10), Ok(None));
    assert_eq!(parse_opt_int(Some(&"7".to_string()), "page_count", 0, 10), Ok(Some(7)));
    assert_eq!(
        parse_opt_int(Some(&"x1".to_string()), "page_count", 0, 10),
        Err("page_count のパースに失敗 (x1): invalid digit found in string".to_string())
    );
}

fn row(cols: &[(&str, &str)]) -> ImportRow {
    let mut r = ImportRow::new();
    for (k, v) in cols {
        r.set(k, v.to_string());
    }
    r
}

#[test]
fn import_record_from_a_row() {
    let r = row(&[
        ("title", "作品"),
        ("media_type", "comic"),
        ("flag_exist", "True"),
        ("tags", " a, ,b ,"),
        ("file_size", "12"),
        ("volume_text", "3"),
        ("rating", "5"),
    ]);
    let cols = vec!["rating".to_string(), "missing".to_string()];
    let rec = build_import_record(&r, &cols).unwrap();
    assert_eq!(rec.media.title, "作品");
    assert_eq!(rec.media.media_type, MediaType::Comic);
    assert_eq!(rec.media.flag_exist, Some(true));
    assert_eq!(rec.media.file_size, Some(12));
    assert_eq!(rec.media.duration_sec, None);
    assert_eq!(rec.media.volume_number, None);
    assert_eq!(rec.media.volume_text, Some("3".to_string()));
    assert_eq!(rec.tags, vec!["a", "b"]);
    assert_eq!(rec.attributes, vec![("rating".to_string(), "5".to_string())]);
}

#[test]
fn import_record_errors() {
    let e = |cols: &[(&str, &str)]| build_import_record(&row(cols), &vec![]).err().unwrap();
    assert_eq!(e(&[("media_type", "comic")]), "title は必須です");
    assert_eq!(e(&[("title", ""), ("media_type", "comic")]), "title は必須です");
    assert_eq!(e(&[("title", "t")]), "media_type は必須です");
    assert_eq!(e(&[("title", "t"), ("media_type", "book")]), "不正な media_type です: book（comic/video/music のいずれか）");
    assert_eq!(
        e(&[("title", "t"), ("media_type", "video"), ("duration_sec", "3000000000")]),
        "duration_sec のパースに失敗 (3000000000): number too large to fit in target type"
    );
    let r = build_import_record(&row(&[("title", "t"), ("media_type", "music"), ("flag_exist", "no")]), &vec![]).unwrap();
    assert_eq!(r.media.flag_exist, Some(false));
    assert!(r.tags.is_empty());
}

#[test]
fn a_row_keeps_the_last_value_of_a_column() {
    let r = row(&[("a", "1"), ("b", "2"), ("a", "3")]);
    assert_eq!(r.get("a").map(|s| s.as_str()), Some("3"));
    assert_eq!(r.get("c"), None);
    assert_eq!(split_tags(""), Vec::<String>::new());
    assert_eq!(split_tags("x,y"), vec!["x", "y"]);
}

#[test]
fn gate_limit_details_name_the_count() {
    let diff = compute_diff(&BackupSnapshot::new(), &BackupSnapshot::new(), &DiffOptions::default());
    let mut summary = summarize_diff(&diff);
    summary.totals = DiffTotals { added: 2, removed: 1, changed: 0 };
    let config = GateConfig { max_added: 2, max_removed: 1, max_changed: 0, golden_assertions: vec![] };
    let r = evaluate_gate(&summary, "ok", &[], true, 3, 3, &[], &config);
    assert_eq!(r.len(), 6);
    assert_eq!(r[3].name, "max_added");
    assert!(r[3].passed);
    assert_eq!(r[3].detail, "added=2 (max 2)");
    assert_eq!(r[4].detail, "removed=1 (max 1)");
    assert_eq!(r[5].detail, "changed=0 (max 0)");
    assert!(r[4].passed && r[5].passed);
    assert!(ObserveResult::all_passed(&r));
}

#[test]
fn file_targets_must_stay_inside_the_media_root() {
    let protected = vec!["/media/.trash".to_string()];
    assert!(check_pair("/media", "/media/a/b.jpg", "/media/c.jpg", &protected).is_ok());
    assert!(check_pair("/media/", "/media//a", "/media", &protected).is_ok());
    match check_pair("/media", "/escape.txt", "/media/x", &protected) {
        Err(KijukuError::Validation(m)) => assert_eq!(m, "target is not under media root: /escape.txt (root: /media)"),
        _ => panic!("expected a refusal"),
    }
    match check_pair("/media", "/media/x", "/media2/x", &protected) {
        Err(KijukuError::Validation(m)) => assert_eq!(m, "target is not under media root: /media2/x (root: /media)"),
        _ => panic!("expected a refusal"),
    }
    match check_pair("/media", "/media/lonely.txt", "/media/.trash", &protected) {
        Err(KijukuError::Validation(m)) => assert_eq!(
            m,
            "source or destination is a protected path (src: /media/lonely.txt, dst: /media/.trash)"
        ),
        _ => panic!("expected a refusal"),
    }
    assert!(check_pair("/media", "/media/.trash/old.jpg", "/media/a", &protected).is_err());
}

#[test]
fn copy_and_move_plans_come_only_for_paths_inside_the_root() {
    let protected = vec!["/media/.trash".to_string()];
    for apply in [false, true] {
        let opts = FileOpOptions { apply, update_db: false };
        assert!(media_cp_within("/media", "/escape.txt", "/media/x", false, &protected, &opts).is_err());
        assert!(media_cp_within("/media", "/media/lonely.txt", "/escape.txt", false, &protected, &opts).is_err());
        assert!(media_cp_within("/media", "/media/lonely.txt", "/media/.trash", true, &protected, &opts).is_err());
        assert!(media_mv_within("/media", "/media/lonely.txt", "/media/.trash/x", false, &protected, &opts).is_err());
    }
    let opts = FileOpOptions::default();
    let r = media_cp_within("/media", "/media/a/b.jpg", "/media/c/d.jpg", true, &protected, &opts).unwrap();
    assert!(!r.applied);
    assert_eq!(r.steps.len(), 2);
    match &r.steps[0] {
        FileOpStep::Trash { path, reason } => {
            assert_eq!(path, "c/d.jpg");
            assert_eq!(reason, "media_cp overwrite");
        }
        _ => panic!("expected the old destination to go to the trash"),
    }
    match &r.steps[1] {
        FileOpStep::Copy { from, to } => {
            assert_eq!(from, "a/b.jpg");
            assert_eq!(to, "c/d.jpg");
        }
        _ => panic!("expected a copy"),
    }
    let r = media_mv_within("/media", "/media/a.jpg", "/media/b.jpg", false, &protected, &opts).unwrap();
    match &r.steps[..] {
        [FileOpStep::Move { from, to }] => {
            assert_eq!(from, "a.jpg");
            assert_eq!(to, "b.jpg");
        }
        _ => panic!("expected one move"),
    }
}

#[test]
fn sync_refuses_a_source_that_is_not_a_directory() {
    let protected = vec!["/media/.trash".to_string()];
    let opts = FileOpOptions::default();
    match media_sync_within("/media", "/media/a.txt", "/media/dst", false, &protected, &vec![], &vec![], &opts) {
        Err(KijukuError::Validation(m)) => assert_eq!(m, "media_sync source must be a directory: /media/a.txt"),
        _ => panic!("expected a refusal"),
    }
    let srcs = vec![SyncSource { rel: "a.txt".to_string(), differs: true, target_exists: true }];
    let dsts = vec!["extra.txt".to_string(), "a.txt".to_string()];
    let r = media_sync_within("/media", "/media/src", "/media/dst", true, &protected, &srcs, &dsts, &opts).unwrap();
    assert_eq!(r.steps.len(), 3);
    match &r.steps[0] {
        FileOpStep::Trash { path, reason } => {
            assert_eq!(path, "dst/extra.txt");
            assert_eq!(reason, "media_sync extra");
        }
        _ => panic!("expected the extra file to go to the trash"),
    }
    match &r.steps[2] {
        FileOpStep::Copy { from, to } => {
            assert_eq!(from, "src/a.txt");
            assert_eq!(to, "dst/a.txt");
        }
        _ => panic!("expected a copy"),
    }
}

#[test]
fn timestamps_read_as_rfc3339_or_sqlite_text() {
    assert_eq!(parse_timestamp("2024-01-02 03:04:05"), Ok(1704164645000));
    assert_eq!(parse_timestamp("2024-01-02T03:04:05.5+00:00"), Ok(1704164645500));
    assert!(parse_timestamp("yesterday").is_err());
}

#[test]
fn media_is_read_by_id() {
    let (sql, params) = get_media_sql(42);
    assert_eq!(sql, "SELECT * FROM media WHERE id = ?1");
    assert!(matches!(params.as_slice(), [SqlParam::Int(42)]));
}

#[test]
fn names_with_other_text_after_the_stem_do_not_parse() {
    assert!(parse_backup_filename("test.あああああああ.db", "test").is_none());
    assert!(parse_backup_filename("test.20260323120530-45é.db", "test").is_none());
    assert!(parse_backup_filename("test.2026032312053é-456.db", "test").is_none());
    assert!(parse_backup_filename("test.20260323120530-456-ラベル.db", "test").is_some());
}

#[test]
fn configuration_files_are_read_global_cwd_db_dir_extra() {
    let all = config_paths(Some("/home/u"), Some("/work"), Some("/data"), Some("/etc/extra.toml"));
    assert_eq!(
        all,
        vec![
            "/home/u/.local/config/kijuku-db/config.toml",
            "/work/kijuku-db-config.toml",
            "/data/kijuku-db-config.toml",
            "/etc/extra.toml",
        ]
    );
    assert_eq!(config_paths(None, None, Some(""), None), vec!["./kijuku-db-config.toml", "kijuku-db-config.toml"]);
    assert_eq!(config_paths(Some("/"), Some("/w/"), None, None), vec!["/.local/config/kijuku-db/config.toml", "/w/kijuku-db-config.toml"]);
}

#[test]
fn unicode_white_space_is_trimmed() {
    assert_eq!(Target::parse("\u{3000}prod\t"), Some(Target::Prod));
    assert_eq!(Target::parse("\u{00A0}stg\u{2028}"), Some(Target::Stg));
    assert_eq!(Target::parse("\u{180E}prod"), None);
    assert_eq!(calculate_volume_number(Some("\u{2003}10 ")), Some(10));
}

#[test]
fn generated_uuids_have_the_version_4_shape() {
    let input = MediaInput { title: "t".to_string(), ..Default::default() };
    let (_, params) = build_create_media_sql(&input);
    match &params[0] {
        SqlParam::Text(u) => {
            let cs: Vec<char> = u.chars().collect();
            assert_eq!(cs.len(), 36);
            for (i, c) in cs.iter().enumerate() {
                if [8, 13, 18, 23].contains(&i) {
                    assert_eq!(*c, '-');
                } else {
                    assert!(c.is_ascii_digit() || ('a'..='f').contains(c));
                }
            }
            assert_eq!(cs[14], '4');
            assert!(['8', '9', 'a', 'b'].contains(&cs[19]));
        }
        _ => panic!("expected the uuid text"),
    }
}
