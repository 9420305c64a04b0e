
use kijuku_db::config::{load_config, resolve_prod_and_stg_paths, resolve_target, ConfigFile, MapEnv, RetentionTierFile, Target};
use kijuku_db::diff::{compute_diff, BackupSnapshot, DiffDetail, DiffOptions};
use kijuku_db::error::KijukuError;
use kijuku_db::ops::parse_diff_detail;
use kijuku_db::summary::summarize_diff;
use kijuku_db::types::{AttributeValueType, Media, MediaAttribute, MediaType};
use kijuku_db::listing::BackupFileEntry;
use kijuku_db::backup::{BackupKind, BackupManager, BackupOptions, BackupScope};

fn media(id: i64, title: &str, media_type: MediaType, artist: Option<&str>, flag_exist: bool) -> Media {
    Media {
        id,
        uuid: format!("uuid-{}", id),
        title: title.to_string(),
        title_id: None,
        path: None,
        media_type,
        thumbnail_path: None,
        artist: artist.map(|s| s.to_string()),
        artist_id: None,
        description: None,
        file_size: None,
        duration_sec: None,
        page_count: None,
        series: None,
        volume_number: None,
        volume_text: None,
        volume_title: None,
        magazine: None,
        magazine_id: None,
        language: None,
        source: None,
        external_id: None,
        artist_en: None,
        title_en: None,
        chapters: None,
        extension: None,
        flag_exist,
        created_at: 0,
        updated_at: 0,
        title_pron: None,
        artist_pron: None,
        series_pron: None,
    }
}

// ---- summary of a diff ----

#[test]
fn test_summarize_diff_totals_and_media_distribution() {
    let prod = BackupSnapshot::new();
    let mut stg = BackupSnapshot::new();
    stg.insert_media(media(1, "c1", MediaType::Comic, Some("A"), true));
    stg.insert_media(media(2, "c2", MediaType::Comic, Some("A"), false));
    stg.insert_media(media(3, "v1", MediaType::Video, None, true));

    let diff = compute_diff(&prod, &stg, &DiffOptions { detail: Some(DiffDetail::Full) });
    let summary = summarize_diff(&diff);

    assert_eq!(summary.totals.added, 3);
    assert_eq!(summary.totals.removed, 0);
    assert_eq!(summary.totals.changed, 0);

    assert_eq!(summary.distribution.media.by_type.get("comic").unwrap().added, 2);
    assert_eq!(summary.distribution.media.by_type.get("video").unwrap().added, 1);

    let artist_a = summary
        .distribution
        .media
        .by_artist_top
        .iter()
        .find(|(k, _)| k == "A")
        .expect("artist A in top");
    assert_eq!(artist_a.1.added, 2);

    assert_eq!(summary.distribution.media.by_flag_exist.get("true").unwrap().added, 2);
    assert_eq!(summary.distribution.media.by_flag_exist.get("false").unwrap().added, 1);
}

#[test]
fn test_summarize_diff_attribute_distribution_by_key() {
    let prod = BackupSnapshot::new();
    let mut stg = BackupSnapshot::new();
    for (mid, key) in [(1i64, "rating"), (2, "rating"), (3, "source")] {
        stg.insert_attribute(MediaAttribute {
            media_id: mid,
            key: key.to_string(),
            value: None,
            value_type: AttributeValueType::String,
        });
    }
    let diff = compute_diff(&prod, &stg, &DiffOptions { detail: Some(DiffDetail::Full) });
    let summary = summarize_diff(&diff);

    assert_eq!(summary.distribution.attributes.by_key.get("rating").unwrap().added, 2);
    assert_eq!(summary.distribution.attributes.by_key.get("source").unwrap().added, 1);
}

// ---- configuration ----

fn interval_file(ms: u64) -> ConfigFile {
    let mut c = ConfigFile::default();
    c.backup.auto.interval_ms = Some(ms);
    c
}

const GLOBAL: &str = "/home/user/.config/kijuku-db/config.toml";

#[test]
fn test_load_config_single_file() {
    let mut file = ConfigFile::default();
    file.backup.enabled = Some(false);
    file.backup.backup_dir = Some("/tmp/mybackup".to_string());
    file.backup.auto.interval_ms = Some(1_800_000);
    let mut again = ConfigFile::default();
    again.backup.enabled = Some(false);
    again.backup.backup_dir = Some("/tmp/mybackup".to_string());
    again.backup.auto.interval_ms = Some(1_800_000);
    // The working directory and the database's directory are the same one.
    let config = load_config(vec![
        (GLOBAL.to_string(), None),
        ("/tmp/d/kijuku-db-config.toml".to_string(), Some(file)),
        ("/tmp/d/kijuku-db-config.toml".to_string(), Some(again)),
    ]);
    assert!(!config.backup.enabled);
    assert_eq!(config.backup.backup_dir, Some("/tmp/mybackup".to_string()));
    assert_eq!(config.backup.interval_ms, 1_800_000);
}

#[test]
fn test_load_config_merge_priority() {
    let config = load_config(vec![
        (GLOBAL.to_string(), None),
        ("/tmp/d1/kijuku-db-config.toml".to_string(), Some(interval_file(1_800_000))),
        ("/tmp/d2/kijuku-db-config.toml".to_string(), Some(interval_file(900_000))),
    ]);
    assert_eq!(config.backup.interval_ms, 900_000);
}

#[test]
fn test_load_config_extra_path_highest_priority() {
    let config = load_config(vec![
        (GLOBAL.to_string(), None),
        ("/tmp/d/kijuku-db-config.toml".to_string(), Some(interval_file(1_800_000))),
        ("/tmp/d/kijuku-db-config.toml".to_string(), Some(interval_file(1_800_000))),
        ("/tmp/d/extra-config.toml".to_string(), Some(interval_file(600_000))),
    ]);
    assert_eq!(config.backup.interval_ms, 600_000);
}

#[test]
fn test_load_config_no_files() {
    let config = load_config(vec![
        (GLOBAL.to_string(), None),
        ("/tmp/d/kijuku-db-config.toml".to_string(), None),
        ("/tmp/d/kijuku-db-config.toml".to_string(), None),
    ]);
    assert!(config.backup.enabled);
    assert_eq!(config.backup.interval_ms, 3_600_000);
}

#[test]
fn test_load_config_retention_tiers() {
    let mut file = ConfigFile::default();
    file.backup.retention.tiers = Some(vec![
        RetentionTierFile { max_age_secs: 3600, keep_interval_secs: 0 },
        RetentionTierFile { max_age_secs: 86400, keep_interval_secs: 3600 },
    ]);
    let config = load_config(vec![
        (GLOBAL.to_string(), None),
        ("/tmp/d/kijuku-db-config.toml".to_string(), Some(file)),
    ]);
    let tiers = config.backup.retention_tiers.unwrap();
    assert_eq!(tiers.len(), 2);
    assert_eq!(tiers[0].max_age_secs, 3600);
    assert_eq!(tiers[0].keep_interval_secs, 0);
    assert_eq!(tiers[1].max_age_secs, 86400);
    assert_eq!(tiers[1].keep_interval_secs, 3600);
}

#[test]
fn test_resolve_target_default_is_stg() {
    let r = resolve_target(None, None, &MapEnv::empty());
    assert_eq!(r.target, Target::Stg);
    assert_eq!(r.db_path, "kijuku.stg.db");
    assert!(!r.readonly);
    assert!(r.should_migrate);
}

#[test]
fn test_resolve_target_cli_beats_env() {
    let r = resolve_target(Some(Target::Prod), None, &MapEnv::empty().with("KIJUKU_TARGET", "stg"));
    assert_eq!(r.target, Target::Prod);
    assert!(r.readonly);
    assert!(!r.should_migrate);
    assert_eq!(r.db_path, "kijuku.db");
}

#[test]
fn test_resolve_target_env_beats_default() {
    let r = resolve_target(None, None, &MapEnv::empty().with("KIJUKU_TARGET", "prod"));
    assert_eq!(r.target, Target::Prod);
    assert!(r.readonly);
}

#[test]
fn test_resolve_target_invalid_env_falls_back_to_stg() {
    let r = resolve_target(None, None, &MapEnv::empty().with("KIJUKU_TARGET", "bogus"));
    assert_eq!(r.target, Target::Stg);
}

#[test]
fn test_resolve_target_db_cli_beats_all() {
    let r = resolve_target(
        Some(Target::Prod),
        Some("/custom/path.db"),
        &MapEnv::empty().with("KIJUKU_DB_PATH", "/env/prod.db"),
    );
    assert_eq!(r.db_path, "/custom/path.db");
    assert!(r.readonly);
}

#[test]
fn test_resolve_target_db_env_per_target() {
    let r = resolve_target(Some(Target::Prod), None, &MapEnv::empty().with("KIJUKU_DB_PATH", "/env/prod.db"));
    assert_eq!(r.db_path, "/env/prod.db");
    let r = resolve_target(Some(Target::Stg), None, &MapEnv::empty().with("KIJUKU_STG_DB_PATH", "/env/stg.db"));
    assert_eq!(r.db_path, "/env/stg.db");
}

#[test]
fn prod_and_stg_paths_come_from_their_own_variables() {
    let env = MapEnv::empty()
        .with("KIJUKU_DB_PATH", "/env/prod.db")
        .with("KIJUKU_STG_DB_PATH", "/env/stg.db")
        .with("KIJUKU_TARGET", "prod");
    let (prod, stg) = resolve_prod_and_stg_paths(&env);
    assert_eq!(prod, "/env/prod.db");
    assert_eq!(stg, "/env/stg.db");
    let (prod, stg) = resolve_prod_and_stg_paths(&MapEnv::empty().with("KIJUKU_STG_DB_PATH", "/only/stg.db"));
    assert_eq!(prod, "kijuku.db");
    assert_eq!(stg, "/only/stg.db");
}

#[test]
fn later_setting_of_a_variable_wins() {
    let env = MapEnv::empty().with("KIJUKU_TARGET", "stg").with("KIJUKU_TARGET", "prod");
    let r = resolve_target(None, None, &env);
    assert_eq!(r.target, Target::Prod);
    assert_eq!(r.db_path, "kijuku.db");
}

#[test]
fn test_resolve_target_stg_ignores_prod_env() {
    let r = resolve_target(Some(Target::Stg), None, &MapEnv::empty().with("KIJUKU_DB_PATH", "/env/prod.db"));
    assert_eq!(r.db_path, "kijuku.stg.db");
}

// ---- error messages ----

#[test]
fn test_not_found_error() {
    let error = KijukuError::NotFound("メディアが見つかりません".to_string());
    assert_eq!(error.message(), "Not found: メディアが見つかりません");
}

#[test]
fn test_validation_error() {
    let error = KijukuError::Validation("タイトルは必須です".to_string());
    assert_eq!(error.message(), "Validation error: タイトルは必須です");
}

#[test]
fn test_parse_error() {
    let error = KijukuError::Parse("無効なJSONフォーマット".to_string());
    assert_eq!(error.message(), "Parse error: 無効なJSONフォーマット");
}

#[test]
fn test_other_error() {
    let error = KijukuError::Other("予期しないエラー".to_string());
    assert_eq!(error.message(), "Error: 予期しないエラー");
}

#[test]
fn test_error_debug_output() {
    let error = KijukuError::NotFound("test".to_string());
    let debug_output = format!("{:?}", error);
    assert!(debug_output.contains("NotFound"));
}

// ---- the --detail option ----

#[test]
fn cli_parses_summary() {
    assert!(matches!(parse_diff_detail("summary"), Ok(kijuku_db::diff::DiffDetail::SummaryOnly)));
}

#[test]
fn cli_parses_full() {
    assert!(matches!(parse_diff_detail("full"), Ok(kijuku_db::diff::DiffDetail::Full)));
}

#[test]
fn cli_parses_limited_n() {
    assert!(matches!(parse_diff_detail("limited=50"), Ok(kijuku_db::diff::DiffDetail::Limited { n: 50 })));
}

#[test]
fn cli_rejects_unknown_value() {
    assert!(parse_diff_detail("invalid").is_err());
}

#[test]
fn cli_rejects_non_numeric_limited() {
    assert!(parse_diff_detail("limited=abc").is_err());
}

#[test]
fn main_parses_summary() {
    assert!(matches!(parse_diff_detail("summary"), Ok(kijuku_db::diff::DiffDetail::SummaryOnly)));
}

#[test]
fn main_parses_full() {
    assert!(matches!(parse_diff_detail("full"), Ok(kijuku_db::diff::DiffDetail::Full)));
}

#[test]
fn main_parses_limited_n() {
    assert!(matches!(parse_diff_detail("limited=50"), Ok(kijuku_db::diff::DiffDetail::Limited { n: 50 })));
}

#[test]
fn main_rejects_unknown_value() {
    assert!(parse_diff_detail("invalid").is_err());
}

#[test]
fn main_rejects_non_numeric_limited() {
    assert!(parse_diff_detail("limited=abc").is_err());
}

// ---- finding a base backup ----

#[test]
fn test_find_backup_by_id_prefers_full_over_diff() {
    let options = BackupOptions {
        backup_dir: Some("/tmp/t/backups".to_string()),
        enabled: Some(true),
        ..Default::default()
    };
    let manager = BackupManager::new("/tmp/t/test.db".to_string(), "test".to_string(), "/tmp/t".to_string(), options);
    let ts = "20260622120000-123";
    let entry = |ext: &str| BackupFileEntry {
        scope: BackupScope::Auto,
        name: format!("test.{}.{}", ts, ext),
        path: format!("/tmp/t/backups/auto/test.{}.{}", ts, ext),
        modified_ms: 0,
        diff_base_id: None,
    };
    // Whichever order the directory lists them in, the full backup is chosen.
    for files in [vec![entry("diff"), entry("db")], vec![entry("db"), entry("diff")]] {
        let found = manager.find_backup_by_id_in_scope(&files, ts, BackupScope::Auto);
        assert!(found.is_some(), "the full base should be found");
        let found = found.unwrap();
        assert!(found.path.ends_with(".db"), "the full (.db) should be the base: {:?}", found.path);
        assert!(matches!(found.kind, BackupKind::Full), "kind should be Full");
    }
}
