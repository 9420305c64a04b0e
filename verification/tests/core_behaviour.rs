use kijuku_db::backup::{parse_backup_filename, BackupOptions, RetentionPolicy};
use kijuku_db::config::{KijukuConfig, Target};
use kijuku_db::diff::{compute_diff, BackupSnapshot, DiffDetail, DiffOptions};
use kijuku_db::error::{KijukuError, Result};
use kijuku_db::hash::{bytes_to_hex, hex_to_bytes};
use kijuku_db::ops::{classify_operation, OpClass};
use kijuku_db::prompt::{build_diff_explanation_prompt, DiffExplanationPromptOptions};
use kijuku_db::summary::summarize_diff;
use kijuku_db::types::{Media, MediaType, Tag};

fn tag(id: i64, name: &str) -> Tag {
    Tag { id, name: name.to_string() }
}

fn media(id: i64, title: &str, media_type: MediaType, artist: Option<&str>, flag_exist: bool) -> Media {
    Media {
        id,
        uuid: format!("uuid-{}", id),
        title: title.to_string(),
        title_id: None,
        path: None,
        media_type,
        thumbnail_path: None,
        artist: artist.map(|s| s.to_string()),
        artist_id: None,
        description: None,
        file_size: None,
        duration_sec: None,
        page_count: None,
        series: None,
        volume_number: None,
        volume_text: None,
        volume_title: None,
        magazine: None,
        magazine_id: None,
        language: None,
        source: None,
        external_id: None,
        artist_en: None,
        title_en: None,
        chapters: None,
        extension: None,
        flag_exist,
        created_at: 0,
        updated_at: 0,
        title_pron: None,
        artist_pron: None,
        series_pron: None,
    }
}

#[test]
fn test_backup_options_default() {
    let options = BackupOptions::default();
    assert_eq!(options.interval_ms, Some(3_600_000));
    assert_eq!(options.enabled, Some(true));
    assert_eq!(options.auto_enabled, Some(true));
    assert!(options.retention_policy.is_none());
    assert_eq!(options.busy_timeout_ms, Some(5_000));
    assert_eq!(options.retry_intervals_ms, Some(vec![5_000, 10_000, 30_000, 60_000]));
}

#[test]
fn test_retention_policy_default() {
    let policy = RetentionPolicy::default();
    assert_eq!(policy.tiers.len(), 7);
    assert_eq!(policy.tiers[0].max_age_secs, 3600);
    assert_eq!(policy.tiers[0].keep_interval_secs, 0);
    assert_eq!(policy.tiers[6].keep_interval_secs, 31_536_000);
}

#[test]
fn test_parse_backup_filename_full() {
    let parsed = parse_backup_filename("test.20260323120530-456.db", "test").unwrap();
    assert_eq!(parsed.id, "20260323120530-456");
    assert_eq!(parsed.extension, "db");
    assert_eq!(parsed.label, None);
}

#[test]
fn test_parse_backup_filename_diff() {
    let parsed = parse_backup_filename("test.20260323120530-456.diff", "test").unwrap();
    assert_eq!(parsed.id, "20260323120530-456");
    assert_eq!(parsed.extension, "diff");
    assert_eq!(parsed.label, None);
}

#[test]
fn test_parse_backup_filename_with_label() {
    let parsed = parse_backup_filename("test.20260323120530-456-before_import.db", "test").unwrap();
    assert_eq!(parsed.id, "20260323120530-456");
    assert_eq!(parsed.extension, "db");
    assert_eq!(parsed.label, Some("before_import".to_string()));
}

#[test]
fn test_parse_backup_filename_invalid() {
    assert!(parse_backup_filename("test.invalid.db", "test").is_none());
    assert!(parse_backup_filename("other.20260323120530-456.db", "test").is_none());
}

#[test]
fn test_parse_backup_filename_pre_promote_label() {
    let parsed = parse_backup_filename("test.20260724000000-000-pre_promote.db", "test");
    let parsed = parsed.expect("pre_promote parses as labeled .db");
    assert_eq!(parsed.id, "20260724000000-000");
    assert_eq!(parsed.extension, "db");
    assert_eq!(parsed.label.as_deref(), Some("pre_promote"));
}

#[test]
fn classifies_b_restricted_ops() {
    for op in &["mediaMv", "purgeTrash", "restore"] {
        assert_eq!(classify_operation(op), OpClass::StgRestricted, "{} should be StgRestricted", op);
    }
}

#[test]
fn classifies_a_permitted_ops() {
    for op in &[
        "createMedia",
        "updateMedia",
        "deleteMedia",
        "bulkCreateMedia",
        "createTag",
        "addTagToMedia",
        "setMediaAttribute",
        "addMediaHash",
        "computeMediaHash",
        "updateExist",
        "updateThumbnail",
        "backup",
        "setBackupLabel",
        "mediaCp",
        "mediaSync",
        "moveToTrash",
        "restoreFromTrash",
        "promote",
        "migrate",
    ] {
        assert_eq!(classify_operation(op), OpClass::StgPermitted, "{} should be StgPermitted", op);
    }
}

#[test]
fn classifies_read_ops() {
    for op in &[
        "getMedia",
        "findMedia",
        "getAllTags",
        "getMediaAttributes",
        "getMediaHash",
        "listBackups",
        "diffBackup",
        "diffProdStg",
        "observe",
        "getSchemaVersion",
        "listTrash",
    ] {
        assert_eq!(classify_operation(op), OpClass::Read, "{} should be Read", op);
    }
}

#[test]
fn unknown_op_is_read() {
    assert_eq!(classify_operation("__unknown__"), OpClass::Read);
}

#[test]
fn test_default_config() {
    let config = KijukuConfig::default();
    assert!(config.backup.enabled);
    assert!(config.backup.auto_enabled);
    assert_eq!(config.backup.interval_ms, 3_600_000);
    assert_eq!(config.backup.tmp_retention_secs, 604_800);
    assert!(config.backup.backup_dir.is_none());
    assert!(config.backup.retention_tiers.is_none());
}

#[test]
fn test_target_parse_variants() {
    assert_eq!(Target::parse("prod"), Some(Target::Prod));
    assert_eq!(Target::parse("PROD"), Some(Target::Prod));
    assert_eq!(Target::parse("stg"), Some(Target::Stg));
    assert_eq!(Target::parse("staging"), Some(Target::Stg));
    assert_eq!(Target::parse("  prod "), Some(Target::Prod));
    assert_eq!(Target::parse("nope"), None);
}

#[test]
fn test_compute_diff_no_changes() {
    let mut snap = BackupSnapshot::new();
    snap.insert_tag(tag(1, "A"));
    let opts = DiffOptions::default();
    let diff = compute_diff(&snap, &snap, &opts);
    assert_eq!(diff.summary.tags.added, 0);
    assert_eq!(diff.summary.tags.removed, 0);
    assert_eq!(diff.summary.tags.changed, 0);
}

#[test]
fn test_compute_diff_tag_added_removed_changed() {
    let mut current = BackupSnapshot::new();
    current.insert_tag(tag(1, "A-current"));
    current.insert_tag(tag(2, "B"));
    let mut backup = BackupSnapshot::new();
    backup.insert_tag(tag(1, "A-backup"));
    backup.insert_tag(tag(3, "C"));

    let opts = DiffOptions { detail: Some(DiffDetail::Full) };
    let diff = compute_diff(&current, &backup, &opts);
    assert_eq!(diff.summary.tags.added, 1);
    assert_eq!(diff.summary.tags.removed, 1);
    assert_eq!(diff.summary.tags.changed, 1);
    assert_eq!(diff.tags.added[0].id, 3);
    assert_eq!(diff.tags.removed[0].id, 2);
    assert_eq!(diff.tags.changed[0].current.name, "A-current");
    assert_eq!(diff.tags.changed[0].backup.name, "A-backup");
}

#[test]
fn test_compute_diff_assoc() {
    let mut current = BackupSnapshot::new();
    current.insert_media_tag(1, 10);
    current.insert_media_tag(2, 20);
    let mut backup = BackupSnapshot::new();
    backup.insert_media_tag(2, 20);
    backup.insert_media_tag(3, 30);

    let opts = DiffOptions { detail: Some(DiffDetail::Full) };
    let diff = compute_diff(&current, &backup, &opts);
    assert_eq!(diff.summary.media_tags.added, 1);
    assert_eq!(diff.summary.media_tags.removed, 1);
    assert_eq!(diff.summary.media_tags.changed, 0);
}

#[test]
fn test_apply_detail_summary_only_empties_lists() {
    let mut current = BackupSnapshot::new();
    current.insert_tag(tag(1, "A"));
    let backup = BackupSnapshot::new();
    let opts = DiffOptions { detail: Some(DiffDetail::SummaryOnly) };
    let diff = compute_diff(&current, &backup, &opts);
    assert_eq!(diff.summary.tags.removed, 1);
    assert!(diff.tags.removed.is_empty());
}

#[test]
fn test_apply_detail_limited_truncates() {
    let mut current = BackupSnapshot::new();
    for i in 0..10 {
        current.insert_tag(tag(i, "x"));
    }
    let backup = BackupSnapshot::new();
    let opts = DiffOptions { detail: Some(DiffDetail::Limited { n: 3 }) };
    let diff = compute_diff(&current, &backup, &opts);
    assert_eq!(diff.summary.tags.removed, 10);
    assert_eq!(diff.tags.removed.len(), 3);
}

#[test]
fn test_build_diff_explanation_prompt_has_sections() {
    let prod = BackupSnapshot::new();
    let mut stg = BackupSnapshot::new();
    stg.insert_media(media(1, "new", MediaType::Comic, None, true));

    let diff = compute_diff(&prod, &stg, &DiffOptions::default());
    let summary = summarize_diff(&diff);
    let prompt = build_diff_explanation_prompt(&diff, &summary, &DiffExplanationPromptOptions::default());

    assert!(prompt.contains("# メディアDB変更レビュー"));
    assert!(prompt.contains("## 1. 変更サマリ"));
    assert!(prompt.contains("## 2. 変更内容の代表サンプル"));
    assert!(prompt.contains("## 3. 分布"));
    assert!(prompt.contains("## 4. 説明指示"));
    assert!(prompt.contains("### 変更内容の要約"));
    assert!(prompt.contains("### 影響範囲"));
    assert!(prompt.contains("### リスク"));
    assert!(prompt.contains("### promote 可否の根拠"));
}

#[test]
fn test_build_diff_explanation_prompt_empty() {
    let snap = BackupSnapshot::new();
    let diff = compute_diff(&snap, &snap, &DiffOptions::default());
    let summary = summarize_diff(&diff);
    let prompt = build_diff_explanation_prompt(&diff, &summary, &DiffExplanationPromptOptions::default());

    assert!(prompt.contains("合計: +0 -0 ~0"));
}

#[test]
fn test_build_diff_explanation_prompt_semantics_note() {
    let snap = BackupSnapshot::new();
    let diff = compute_diff(&snap, &snap, &DiffOptions::default());
    let summary = summarize_diff(&diff);
    let prompt = build_diff_explanation_prompt(&diff, &summary, &DiffExplanationPromptOptions::default());

    assert!(prompt.contains("added=stg新規"));
    assert!(prompt.contains("removed=prod のみ"));
    assert!(prompt.contains("changed=両方で異なる"));
}

#[test]
fn test_build_diff_explanation_prompt_max_samples() {
    let prod = BackupSnapshot::new();
    let mut stg = BackupSnapshot::new();
    for i in 1..=15i64 {
        stg.insert_media(media(i, "m", MediaType::Comic, None, true));
    }
    let diff = compute_diff(&prod, &stg, &DiffOptions { detail: Some(DiffDetail::Full) });
    let summary = summarize_diff(&diff);
    let prompt = build_diff_explanation_prompt(
        &diff,
        &summary,
        &DiffExplanationPromptOptions { max_samples_per_section: 5, ..Default::default() },
    );

    let added_count = prompt
        .lines()
        .filter(|l| l.starts_with("- id=") && l.contains("title="))
        .count();
    assert_eq!(added_count, 5);
}

#[test]
fn test_build_diff_explanation_prompt_skips_distribution() {
    let prod = BackupSnapshot::new();
    let mut stg = BackupSnapshot::new();
    stg.insert_media(media(1, "new", MediaType::Comic, None, true));

    let diff = compute_diff(&prod, &stg, &DiffOptions::default());
    let summary = summarize_diff(&diff);
    let prompt = build_diff_explanation_prompt(
        &diff,
        &summary,
        &DiffExplanationPromptOptions { include_distribution: false, ..Default::default() },
    );

    assert!(!prompt.contains("## 3. 分布"));
    assert!(prompt.contains("## 3. 説明指示"));
}

#[test]
fn test_result_type_ok() {
    let result: Result<i32> = Ok(42);
    assert!(result.is_ok());
    assert_eq!(result.unwrap(), 42);
}

#[test]
fn test_result_type_err() {
    let result: Result<i32> = Err(KijukuError::NotFound("not found".to_string()));
    assert!(result.is_err());
}

#[test]
fn test_hex_conversion() {
    let bytes = vec![0xAB, 0xCD, 0xEF, 0x01];
    let hex = bytes_to_hex(&bytes);
    assert_eq!(hex, "abcdef01");

    let back = hex_to_bytes(&hex).unwrap();
    assert_eq!(back, bytes);
}

#[test]
fn test_hex_to_bytes_invalid() {
    assert!(hex_to_bytes("abc").is_err());
    assert!(hex_to_bytes("zz").is_err());
}
