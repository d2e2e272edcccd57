use mihomo_core::backup::{
    backup_file_name, before_restore_file_name, check_target, MAX_BACKUPS,
};
use mihomo_core::{
    is_backup_file_name, list_backup_entries, list_backups, prune_selection, rename_target,
    renamed_backup_name, sanitize_label, BackupEntry, BackupError, Timestamp,
};

fn stamp(y: u32, mo: u32, d: u32, h: u32, mi: u32, s: u32) -> Timestamp {
    Timestamp::new(y, mo, d, h, mi, s).unwrap()
}

#[test]
fn timestamp_renders_compact_form() {
    assert_eq!(stamp(2024, 3, 7, 9, 5, 1).compact(), "20240307_090501");
    assert_eq!(stamp(999, 12, 31, 23, 59, 59).compact(), "09991231_235959");
}

#[test]
fn timestamp_rejects_out_of_range_fields() {
    assert!(Timestamp::new(2024, 13, 1, 0, 0, 0).is_none());
    assert!(Timestamp::new(2024, 0, 1, 0, 0, 0).is_none());
    assert!(Timestamp::new(2024, 1, 32, 0, 0, 0).is_none());
    assert!(Timestamp::new(2024, 1, 1, 24, 0, 0).is_none());
    assert!(Timestamp::new(2024, 1, 1, 0, 60, 0).is_none());
    assert!(Timestamp::new(2024, 1, 1, 0, 0, 60).is_none());
    assert!(Timestamp::new(10000, 1, 1, 0, 0, 0).is_none());
}

#[test]
fn backup_names_follow_convention() {
    let t = stamp(2024, 1, 2, 3, 4, 5);
    assert_eq!(backup_file_name(&t), "config.yaml.backup.20240102_030405");
    assert_eq!(
        before_restore_file_name(&t),
        "config.yaml.backup.20240102_030405.before-restore"
    );
    assert!(is_backup_file_name(&backup_file_name(&t)));
    assert!(is_backup_file_name(&before_restore_file_name(&t)));
    assert!(is_backup_file_name("config.yaml.backup.20240102_030405"));
    assert!(is_backup_file_name("config.yaml.backup.20240102_030405.my label"));
}

#[test]
fn names_outside_convention_are_refused() {
    assert!(!is_backup_file_name("config.yaml"));
    assert!(!is_backup_file_name("notes.txt"));
    assert!(!is_backup_file_name("config.yaml.backup"));
    assert!(!is_backup_file_name("config.yaml.backup."));
    assert!(!is_backup_file_name("config.yaml.backup.notes"));
    assert!(!is_backup_file_name("config.yaml.backup.2024010_030405"));
    assert!(!is_backup_file_name("config.yaml.backup.20240102-030405"));
    assert!(!is_backup_file_name("config.yaml.backup.20240102_03040x"));
    assert!(!is_backup_file_name("config.yaml.backup.20240102_030405x"));
    assert!(!is_backup_file_name("config.yaml.backup.20240102_030405."));
    assert!(!is_backup_file_name("config.yaml.backup.20240102_030405./../../etc"));
    assert!(!is_backup_file_name("config.yaml.backup.20240102_030405.x\\y"));
    assert!(!is_backup_file_name("config.yaml.backup.before_restore_20240102_030405"));
    assert!(!is_backup_file_name(""));
}

#[test]
fn sanitize_label_filters_and_trims() {
    assert_eq!(sanitize_label("  before upgrade!  "), "before upgrade");
    assert_eq!(sanitize_label("a/b\\c"), "abc");
    assert_eq!(sanitize_label("_x-1_"), "_x-1_");
    assert_eq!(sanitize_label("配置 一"), "配置 一");
    assert_eq!(sanitize_label("\t\n"), "");
    assert_eq!(sanitize_label("!!!"), "");
}

#[test]
fn rename_appends_clean_label() {
    assert_eq!(
        renamed_backup_name("config.yaml.backup.20240102_030405", " stable "),
        Ok("config.yaml.backup.20240102_030405.stable".to_string())
    );
}

#[test]
fn rename_replaces_existing_label() {
    assert_eq!(
        renamed_backup_name("config.yaml.backup.20240102_030405.old one", "new/one"),
        Ok("config.yaml.backup.20240102_030405.newone".to_string())
    );
}

#[test]
fn rename_refuses_foreign_names() {
    assert_eq!(renamed_backup_name("config.yaml", "x"), Err(BackupError::InvalidName));
    assert_eq!(renamed_backup_name("other.txt", "x"), Err(BackupError::InvalidName));
    assert_eq!(renamed_backup_name("config.yaml.backup.notes", "x"), Err(BackupError::InvalidName));
}

#[test]
fn rename_refuses_empty_label() {
    assert_eq!(
        renamed_backup_name("config.yaml.backup.20240102_030405", " ?? "),
        Err(BackupError::EmptyLabel)
    );
}

#[test]
fn delete_target_checks() {
    assert_eq!(check_target("config.yaml.backup.20240102_030405", true), Ok(()));
    assert_eq!(
        check_target("config.yaml.backup.20240102_030405", false),
        Err(BackupError::NotFound)
    );
    assert_eq!(check_target("config.yaml", true), Err(BackupError::InvalidName));
    assert_eq!(check_target("config.yaml.backup.notes", true), Err(BackupError::InvalidName));
    assert_eq!(check_target("config.yaml", false), Err(BackupError::NotFound));
}

#[test]
fn list_is_newest_first_and_filtered() {
    let names = vec![
        "config.yaml.backup.20240101_000000".to_string(),
        "readme.txt".to_string(),
        "config.yaml.backup.20240301_120000".to_string(),
        "config.yaml.backup.20240201_000000.label".to_string(),
        "config.yaml.backup.20240215_000000.before-restore".to_string(),
        "config.yaml.backup.notes".to_string(),
        "config.yaml".to_string(),
    ];
    assert_eq!(
        list_backups(names),
        vec![
            "config.yaml.backup.20240301_120000".to_string(),
            "config.yaml.backup.20240215_000000.before-restore".to_string(),
            "config.yaml.backup.20240201_000000.label".to_string(),
            "config.yaml.backup.20240101_000000".to_string(),
        ]
    );
    assert!(list_backups(Vec::new()).is_empty());
}

fn entry(name: &str, modified: u64) -> BackupEntry {
    BackupEntry { name: name.to_string(), modified }
}

fn name_at(second: u64) -> String {
    format!("config.yaml.backup.20240101_0000{:02}", second)
}

#[test]
fn prune_keeps_most_recent() {
    let entries = vec![
        entry(&name_at(1), 10),
        entry(&name_at(2), 50),
        entry("unrelated.yaml", 1000),
        entry("config.yaml.backup.notes", 2000),
        entry(&name_at(3), 30),
        entry(&name_at(4), 40),
    ];
    let plan = prune_selection(entries, 2);
    let kept: Vec<&str> = plan.kept.iter().map(|e| e.name.as_str()).collect();
    let removed: Vec<&str> = plan.removed.iter().map(|e| e.name.as_str()).collect();
    assert_eq!(kept, vec![name_at(2), name_at(4)]);
    assert_eq!(removed, vec![name_at(3), name_at(1)]);
}

#[test]
fn prune_under_cap_keeps_all() {
    let plan = prune_selection(vec![entry(&name_at(1), 1)], MAX_BACKUPS);
    assert_eq!(plan.kept.len(), 1);
    assert!(plan.removed.is_empty());
    let empty = prune_selection(Vec::new(), MAX_BACKUPS);
    assert!(empty.kept.is_empty() && empty.removed.is_empty());
}

#[test]
fn retention_after_repeated_writes() {
    // each write adds one backup, newer than the others, then prunes
    assert_eq!(MAX_BACKUPS, 10);
    let mut dir: Vec<BackupEntry> = Vec::new();
    for n in 1..=14u64 {
        dir.push(entry(&name_at(n), n));
        let plan = prune_selection(dir, MAX_BACKUPS);
        assert_eq!(plan.kept.len(), std::cmp::min(n as usize, MAX_BACKUPS));
        dir = plan.kept;
    }
    let times: Vec<u64> = dir.iter().map(|e| e.modified).collect();
    assert_eq!(times, vec![14, 13, 12, 11, 10, 9, 8, 7, 6, 5]);
}

#[test]
fn later_timestamps() {
    let a = stamp(2024, 1, 2, 3, 4, 5);
    assert!(stamp(2024, 1, 2, 3, 4, 6).is_after(&a));
    assert!(stamp(2025, 1, 1, 0, 0, 0).is_after(&a));
    assert!(!a.is_after(&a));
    assert!(!stamp(2024, 1, 2, 3, 3, 59).is_after(&a));
}

#[test]
fn listing_breaks_timestamp_ties_by_modification() {
    let entries = vec![
        entry("config.yaml.backup.20240101_000000.a", 5),
        entry("config.yaml.backup.20240101_000000.b", 9),
        entry("notes.txt", 100),
        entry("config.yaml.backup.20230101_000000", 50),
        entry("config.yaml.backup.20240101_000000", 7),
    ];
    let names: Vec<String> = list_backup_entries(entries).into_iter().map(|e| e.name).collect();
    assert_eq!(
        names,
        vec![
            "config.yaml.backup.20240101_000000.b".to_string(),
            "config.yaml.backup.20240101_000000".to_string(),
            "config.yaml.backup.20240101_000000.a".to_string(),
            "config.yaml.backup.20230101_000000".to_string(),
        ]
    );
}

#[test]
fn rename_target_decides_every_case() {
    let dir = vec![
        "config.yaml.backup.20240102_030405".to_string(),
        "config.yaml.backup.20240102_030405.taken".to_string(),
    ];
    let old = "config.yaml.backup.20240102_030405";
    assert_eq!(
        rename_target(old, "fresh", true, &dir),
        Ok("config.yaml.backup.20240102_030405.fresh".to_string())
    );
    assert_eq!(rename_target(old, "taken", true, &dir), Err(BackupError::AlreadyExists));
    assert_eq!(rename_target(old, "x", false, &dir), Err(BackupError::NotFound));
    assert_eq!(rename_target("notes.txt", "x", true, &dir), Err(BackupError::InvalidName));
    assert_eq!(rename_target(old, " ", true, &dir), Err(BackupError::EmptyLabel));
}

#[test]
fn label_whitespace_is_unicode_white_space() {
    assert_eq!(sanitize_label("\u{3000}label\u{2003}x\u{85}"), "label\u{2003}x");
    assert_eq!(sanitize_label("\u{200b}a"), "a");
}
