use mihomo_core::config::{tun_defaults, TunDefault, TunKeysSet};
use mihomo_core::store::{delete_plan, plan_config_write, plan_config_write_no_backup, read_document, restore_plan, write_plan};
use mihomo_core::{BackupError, FileRef, FsStep, StoreError, Timestamp};

fn t() -> Timestamp {
    Timestamp::new(2024, 5, 6, 7, 8, 9).unwrap()
}

fn describe(steps: &[FsStep]) -> Vec<String> {
    fn f(r: &FileRef) -> String {
        match r {
            FileRef::Live => "live".to_string(),
            FileRef::Temp => "temp".to_string(),
            FileRef::Backup(n) => n.clone(),
        }
    }
    steps
        .iter()
        .map(|s| match s {
            FsStep::Copy { from, to } => format!("copy {} {}", f(from), f(to)),
            FsStep::WriteTemp { content } => format!("write {}", content),
            FsStep::SyncTemp => "sync".to_string(),
            FsStep::Rename { from, to } => format!("rename {} {}", f(from), f(to)),
            FsStep::Remove { target } => format!("remove {}", f(target)),
        })
        .collect()
}

#[test]
fn write_backs_up_existing_file_first() {
    let steps = write_plan("port: 7890\n".to_string(), true, &t());
    assert_eq!(
        describe(&steps),
        vec![
            "copy live config.yaml.backup.20240506_070809",
            "write port: 7890\n",
            "sync",
            "rename temp live",
        ]
    );
}

#[test]
fn write_of_new_file_takes_no_backup() {
    let steps = write_plan("a: 1\n".to_string(), false, &t());
    assert_eq!(describe(&steps), vec!["write a: 1\n", "sync", "rename temp live"]);
}

#[test]
fn restore_keeps_current_as_before_restore() {
    let steps = restore_plan("config.yaml.backup.20240101_000000", true, true, &t()).unwrap();
    assert_eq!(
        describe(&steps),
        vec![
            "copy config.yaml.backup.20240101_000000 temp",
            "copy live config.yaml.backup.20240506_070809.before-restore",
            "sync",
            "rename temp live",
        ]
    );
    let fresh = restore_plan("config.yaml.backup.20240101_000000.x", true, false, &t()).unwrap();
    assert_eq!(
        describe(&fresh),
        vec!["copy config.yaml.backup.20240101_000000.x temp", "sync", "rename temp live"]
    );
}

#[test]
fn restore_refuses_missing_or_foreign() {
    assert_eq!(
        restore_plan("config.yaml.backup.20240101_000000", false, true, &t()).unwrap_err(),
        BackupError::NotFound
    );
    assert_eq!(restore_plan("../secret", true, true, &t()).unwrap_err(), BackupError::InvalidName);
    assert_eq!(
        restore_plan("config.yaml.backup.notes", true, true, &t()).unwrap_err(),
        BackupError::InvalidName
    );
}

#[test]
fn delete_plans_only_backups() {
    let steps = delete_plan("config.yaml.backup.20240101_000000", true).unwrap();
    assert_eq!(describe(&steps), vec!["remove config.yaml.backup.20240101_000000"]);
    assert_eq!(delete_plan("config.yaml", true).unwrap_err(), BackupError::InvalidName);
    assert_eq!(delete_plan("config.yaml.backup.x", false).unwrap_err(), BackupError::NotFound);
    assert_eq!(delete_plan("config.yaml.backup.notes", true).unwrap_err(), BackupError::InvalidName);
}

#[test]
fn read_takes_first_document() {
    let doc = read_document(Some("port: 7890\n---\nport: 1\n")).unwrap();
    assert_eq!(doc["port"].as_i64(), Some(7890));
}

#[test]
fn read_missing_file_is_not_found() {
    assert_eq!(read_document(None).unwrap_err(), StoreError::NotFound);
}

#[test]
fn read_empty_or_malformed_is_parse_error() {
    assert_eq!(read_document(Some("")).unwrap_err(), StoreError::ParseError);
    assert_eq!(read_document(Some("a: [1, 2\n")).unwrap_err(), StoreError::ParseError);
}

#[test]
fn config_write_renders_yaml() {
    let doc: serde_json::Value = serde_json::from_str("{\"mode\": \"rule\", \"port\": 7890}").unwrap();
    let steps = plan_config_write(&doc, true, &t()).unwrap();
    assert_eq!(steps.len(), 4);
    match &steps[1] {
        FsStep::WriteTemp { content } => {
            let back = read_document(Some(content.as_str())).unwrap();
            assert_eq!(back["mode"].as_str(), Some("rule"));
            assert_eq!(back["port"].as_i64(), Some(7890));
        }
        other => panic!("unexpected step {:?}", other),
    }
    let quiet = plan_config_write_no_backup(&doc).unwrap();
    assert_eq!(quiet.len(), 3);
    assert!(matches!(quiet[0], FsStep::WriteTemp { .. }));
}

#[test]
fn standalone_backup_step() {
    let steps = mihomo_core::store::backup_plan(true, &t());
    assert_eq!(describe(&steps), vec!["copy live config.yaml.backup.20240506_070809"]);
    assert!(mihomo_core::store::backup_plan(false, &t()).is_empty());
}

#[test]
fn tun_defaults_fill_missing_keys() {
    let none = TunKeysSet {
        stack: false,
        auto_route: false,
        auto_detect_interface: false,
        dns_hijack: false,
        mtu: false,
    };
    assert_eq!(
        tun_defaults(true, none),
        vec![
            TunDefault::Stack,
            TunDefault::AutoRoute,
            TunDefault::AutoDetectInterface,
            TunDefault::DnsHijack,
            TunDefault::Mtu,
        ]
    );
    let some = TunKeysSet { stack: true, mtu: true, ..none };
    assert_eq!(
        tun_defaults(true, some),
        vec![TunDefault::AutoRoute, TunDefault::AutoDetectInterface, TunDefault::DnsHijack]
    );
    assert!(tun_defaults(false, none).is_empty());
}
