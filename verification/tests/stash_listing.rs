use kijuku_db::backup::{copy_retry_action, online_copy_intervals, CopyOutcome, RetryAction};
use kijuku_db::backup::{BackupInfo, BackupKind, BackupManager, BackupOptions, BackupScope, LabelSource};
use kijuku_db::error::KijukuError;
use kijuku_db::listing::{pre_stash_name, BackupFileEntry, BackupMetaStore, PathFacts, RestoreSource, StashKind};

fn manager() -> BackupManager {
    BackupManager::new("/d/media.db".to_string(), "media".to_string(), "/d/backups".to_string(), BackupOptions::default())
}

fn entry(scope: BackupScope, name: &str, modified_ms: u64) -> BackupFileEntry {
    BackupFileEntry {
        scope,
        name: name.to_string(),
        path: format!("/d/backups/x/{}", name),
        modified_ms,
        diff_base_id: None,
    }
}

#[test]
fn pre_stashes_are_tmp_copies_newest_first() {
    let files = vec![
        entry(BackupScope::Tmp, "media.20240101000000-000-pre_migrate.db", 1),
        entry(BackupScope::Tmp, "media.20240301000000-000-pre_promote.db", 2),
        entry(BackupScope::Tmp, "media.20240201000000-000.db", 3),
        entry(BackupScope::Auto, "media.20240401000000-000-pre_restore.db", 4),
        entry(BackupScope::Tmp, "odd-pre_restore.db", 5),
    ];
    let list = manager().list_pre_stashes(&files);
    let ids: Vec<&str> = list.iter().map(|b| b.id.as_str()).collect();
    assert_eq!(ids, vec!["odd-pre_restore.db", "20240301000000-000", "20240101000000-000"]);
    assert!(list.iter().all(|b| b.scope == BackupScope::Tmp && b.label.is_none()));
    assert_eq!(list[1].created_at, 2);
}

fn facts(canonical: Option<&str>, ext: Option<&str>, dir: Option<&str>, under: bool) -> PathFacts {
    PathFacts {
        shown: "x/media.20240101000000-000-pre_migrate.db".to_string(),
        canonical: canonical.map(|c| c.to_string()),
        name: "media.20240101000000-000-pre_migrate.db".to_string(),
        extension: ext.map(|e| e.to_string()),
        parent_name: Some("tmp".to_string()),
        backup_dir_shown: "backups".to_string(),
        backup_dir_canonical: dir.map(|d| d.to_string()),
        under_backup_dir: under,
        modified_ms: 9,
    }
}

#[test]
fn path_selector_checks_the_file() {
    let m = manager();
    let ok = m.backup_info_from_path(&facts(Some("/b/tmp/f.db"), Some("db"), Some("/b"), true)).ok().unwrap();
    assert_eq!(ok.id, "20240101000000-000");
    assert_eq!(ok.path, "/b/tmp/f.db");
    assert_eq!(ok.scope, BackupScope::Tmp);
    match m.backup_info_from_path(&facts(None, Some("db"), Some("/b"), true)) {
        Err(KijukuError::NotFound(msg)) => assert_eq!(msg, "backup path not found: x/media.20240101000000-000-pre_migrate.db"),
        _ => panic!("expected NotFound"),
    }
    match m.backup_info_from_path(&facts(Some("/b/tmp/f.txt"), Some("txt"), Some("/b"), true)) {
        Err(KijukuError::Validation(msg)) => assert!(msg.starts_with("ByPath selector requires a .db file: ")),
        _ => panic!("expected Validation"),
    }
    match m.backup_info_from_path(&facts(Some("/b/tmp/f.db"), Some("db"), None, true)) {
        Err(KijukuError::Validation(msg)) => assert_eq!(msg, "backup_dir not accessible: backups"),
        _ => panic!("expected Validation"),
    }
    match m.backup_info_from_path(&facts(Some("/etc/f.db"), Some("db"), Some("/b"), false)) {
        Err(KijukuError::Validation(msg)) => assert_eq!(
            msg,
            "ByPath selector path must be under backup_dir /b: x/media.20240101000000-000-pre_migrate.db"
        ),
        _ => panic!("expected Validation"),
    }
}

#[test]
fn pre_stash_names_end_with_the_occasion() {
    assert_eq!(pre_stash_name("media", "20240101000000-000", StashKind::Migrate), "media.20240101000000-000-pre_migrate.db");
    assert_eq!(pre_stash_name("media", "20240101000000-000", StashKind::Restore), "media.20240101000000-000-pre_restore.db");
    assert_eq!(pre_stash_name("m", "t", StashKind::Promote), "m.t-pre_promote.db");
}

fn info(id: &str, kind: BackupKind, path: &str) -> BackupInfo {
    BackupInfo {
        id: id.to_string(),
        name: format!("media.{}", id),
        path: path.to_string(),
        created_at: 0,
        scope: BackupScope::Auto,
        kind,
        label: None,
        label_source: LabelSource::Filename,
        note: None,
    }
}

#[test]
fn restore_reads_full_backups_directly_and_diffs_through_their_base() {
    let m = manager();
    let files = vec![
        entry(BackupScope::Manual, "media.20240101000000-000.db", 1),
        entry(BackupScope::Auto, "media.20240101000000-000.db", 2),
    ];
    match m.restore_source(Some(info("a", BackupKind::Full, "/p/a.db")), &files) {
        Ok(RestoreSource::Full { path }) => assert_eq!(path, "/p/a.db"),
        _ => panic!("expected a full source"),
    }
    let diff = info("b", BackupKind::Diff { base_id: "20240101000000-000".to_string() }, "/p/b.diff");
    match m.restore_source(Some(diff), &files) {
        Ok(RestoreSource::Diff { base_path, diff_path }) => {
            assert_eq!(base_path, "/d/backups/x/media.20240101000000-000.db");
            assert_eq!(diff_path, "/p/b.diff");
        }
        _ => panic!("expected a differential source"),
    }
    let orphan = info("c", BackupKind::Diff { base_id: "20230101000000-000".to_string() }, "/p/c.diff");
    match m.restore_source(Some(orphan), &files) {
        Err(KijukuError::Other(msg)) => assert_eq!(msg, "Base backup 20230101000000-000 not found"),
        _ => panic!("expected an error"),
    }
    match m.restore_source(None, &files) {
        Err(KijukuError::Other(msg)) => assert_eq!(msg, "No backup found matching selector"),
        _ => panic!("expected an error"),
    }
}

#[test]
fn pre_stash_copies_are_hidden_from_the_backup_list() {
    let m = manager();
    let name = pre_stash_name("media", "20240105060708-009", StashKind::Promote);
    let files = vec![
        entry(BackupScope::Tmp, &name, 1),
        entry(BackupScope::Tmp, "media.20240105060708-009.db", 2),
    ];
    let listed = m.list_backups(&files, &BackupMetaStore::new());
    assert_eq!(listed.len(), 1);
    assert_eq!(listed[0].name, "media.20240105060708-009.db");
    let stashes = m.list_pre_stashes(&files);
    assert_eq!(stashes.len(), 1);
    assert_eq!(stashes[0].name, name);
}

#[test]
fn busy_copies_wait_through_the_intervals_then_stop() {
    let intervals = online_copy_intervals();
    assert_eq!(intervals, vec![50, 100, 200, 500, 1000]);
    assert_eq!(copy_retry_action(&intervals, 0, CopyOutcome::Busy), RetryAction::WaitMs(50));
    assert_eq!(copy_retry_action(&intervals, 4, CopyOutcome::Busy), RetryAction::WaitMs(1000));
    assert_eq!(copy_retry_action(&intervals, 5, CopyOutcome::Busy), RetryAction::Stop);
    assert_eq!(copy_retry_action(&intervals, 0, CopyOutcome::Failed), RetryAction::Stop);
    assert_eq!(copy_retry_action(&intervals, 1, CopyOutcome::Copied), RetryAction::Stop);
    let mut attempts = 0;
    while let RetryAction::WaitMs(_) = copy_retry_action(&intervals, attempts, CopyOutcome::Busy) {
        attempts += 1;
    }
    assert_eq!(attempts + 1, intervals.len() + 1);
}

#[test]
fn test_backup_retry_options_custom() {
    let options = BackupOptions {
        backup_dir: Some("/tmp/t/backups".to_string()),
        enabled: Some(true),
        busy_timeout_ms: Some(1_000),
        retry_intervals_ms: Some(vec![500, 1_000]),
        ..Default::default()
    };

    let manager = BackupManager::new("/tmp/t/test.db".to_string(), "test".to_string(), "/tmp/t/backups".to_string(), options);
    assert_eq!(manager.busy_timeout_ms, 1_000);
    assert_eq!(manager.retry_intervals_ms, vec![500, 1_000]);
}

#[test]
fn test_backup_retry_options_default_fallback() {
    let options = BackupOptions {
        backup_dir: Some("/tmp/t/backups".to_string()),
        enabled: Some(true),
        busy_timeout_ms: None,
        retry_intervals_ms: None,
        ..Default::default()
    };

    let manager = BackupManager::new("/tmp/t/test.db".to_string(), "test".to_string(), "/tmp/t/backups".to_string(), options);
    assert_eq!(manager.busy_timeout_ms, 5_000);
    assert_eq!(manager.retry_intervals_ms, vec![5_000, 10_000, 30_000, 60_000]);
}

#[test]
fn test_backup_manager_creation() {
    let options = BackupOptions {
        backup_dir: Some("/tmp/t/backups".to_string()),
        interval_ms: Some(1000),
        enabled: Some(true),
        ..Default::default()
    };

    let manager = BackupManager::new("/tmp/t/test.db".to_string(), "test".to_string(), "/tmp/t/default".to_string(), options);
    assert_eq!(manager.backup_dir, "/tmp/t/backups");
    assert_eq!(manager.interval_ms, 1000);
    assert!(manager.enabled);
}

#[test]
fn side_file_keeps_only_listed_backups() {
    let mut meta = BackupMetaStore::new();
    meta.update("a", Some(Some("x".to_string())), None, "t1");
    meta.update("b", None, Some(Some("n".to_string())), "t2");
    meta.update("c", Some(Some("y".to_string())), None, "t3");
    let listed = vec![info("b", BackupKind::Full, "/p/b.db"), info("z", BackupKind::Full, "/p/z.db")];
    assert!(meta.retain_listed(&listed));
    assert_eq!(meta.entries.len(), 1);
    assert_eq!(meta.entries[0].id, "b");
    assert_eq!(meta.entries[0].note.as_deref(), Some("n"));
    assert!(!meta.retain_listed(&listed));
}
