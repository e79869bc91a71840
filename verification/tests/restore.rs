//! Staging a backup and handing it to the device.
use cradle::error::CradleError;
use cradle::libimobiledevice::RunResult;
use cradle::plists::PlistValue;
use cradle::restore::{
    backup_ios_version, dir_totals, no_backup_at, read_version, reject_overlapping_paths,
    restore_args,
    restore_env, retry_removal, run, source_udid_from_staged_dir, stage_paths,
    staged_backup_size, PrefixProbe, RestoreConfig,
};

#[test]
fn source_udid_is_read_from_the_staged_directorys_own_name() {
    let staged = "/tmp/cradle-scratch/UDID-ABC-123";
    assert_eq!(source_udid_from_staged_dir(staged), Some("UDID-ABC-123".to_string()));
}

#[test]
fn source_udid_matches_what_archive_restore_actually_produces() {
    let staged = cradle::paths::join(
        "/scratch",
        "Users/vili/Library/Application Support/Cradle/working/REAL-SOURCE-UDID",
    );
    assert_eq!(source_udid_from_staged_dir(&staged), Some("REAL-SOURCE-UDID".to_string()));
}

#[test]
fn backup_ios_version_reads_product_version() {
    let mut dict = plist::Dictionary::new();
    dict.insert("Product Version".to_string(), plist::Value::String("18.1".to_string()));
    let mut info = Vec::new();
    plist::Value::Dictionary(dict).to_writer_xml(&mut info).unwrap();

    assert_eq!(backup_ios_version(&Ok(info.as_slice())).unwrap(), "18.1");
    let empty = b"<?xml version=\"1.0\"?><plist version=\"1.0\"><dict/></plist>";
    assert_eq!(
        backup_ios_version(&Ok(empty.as_slice())).unwrap_err().message(),
        "Info.plist has no \"Product Version\" key"
    );
    assert_eq!(
        backup_ios_version(&Err("gone".to_string())).unwrap_err().message(),
        "could not read Info.plist: gone"
    );
}

#[test]
fn the_version_is_the_text_that_was_read() {
    let read = |v: PlistValue| Ok(vec![("Product Version".to_string(), v)]);
    assert_eq!(read_version(&read(PlistValue::Text("17.4".to_string()))).unwrap(), "17.4");
    assert!(read_version(&read(PlistValue::Flag(true))).is_err());
    assert!(read_version(&Ok(vec![])).is_err());
}

#[test]
fn stage_from_working_rejects_a_scratch_dir_nested_inside_the_source() {
    let paths = stage_paths("/base/working", "UDID123", "/base/working/UDID123/scratch");
    assert_eq!(paths.source, "/base/working/UDID123");
    assert_eq!(paths.dest, "/base/working/UDID123/scratch/UDID123");
    let err = reject_overlapping_paths(&paths.source, &paths.dest, &paths.source, &paths.dest)
        .unwrap_err();
    assert!(err.message().contains("overlaps with its source"));
}

#[test]
fn overlap_is_refused_both_ways_and_between_siblings_is_none() {
    assert!(reject_overlapping_paths("/a/b", "/a", "s", "d").is_err());
    assert!(reject_overlapping_paths("/a", "/a/", "s", "d").is_err());
    assert!(reject_overlapping_paths("/a/b", "/a/bc", "s", "d").is_ok());
    assert_eq!(
        reject_overlapping_paths("/a", "/a/b", "S", "D").unwrap_err().message(),
        "restore staging destination D overlaps with its source S — refusing to copy a directory \
         into itself"
    );
}

#[test]
fn stage_from_working_errors_clearly_when_source_missing() {
    let paths = stage_paths("/base/working", "NOPE", "/base/scratch");
    let err = no_backup_at(&paths.source);
    assert!(err.message().contains("cradle backup"));
    assert!(err.message().contains("/base/working/NOPE"));
}

#[test]
fn what_is_not_there_yet_is_kept_below_what_is() {
    let mut probe = PrefixProbe::new("/link/new/deep");
    assert_eq!(probe.existing(), "/link/new/deep");
    probe.not_there().unwrap();
    probe.not_there().unwrap();
    assert_eq!(probe.existing(), "/link");
    assert_eq!(probe.resolved("/real"), "/real/new/deep");
    let mut root = PrefixProbe::new("/");
    assert_eq!(
        root.not_there().unwrap_err().message(),
        "path / has no existing ancestor to resolve"
    );
}

#[test]
fn only_a_directory_that_is_not_empty_yet_is_removed_again() {
    assert!(retry_removal(1, Some(66)));
    assert!(retry_removal(4, Some(66)));
    assert!(!retry_removal(5, Some(66)));
    assert!(!retry_removal(1, Some(2)));
    assert!(!retry_removal(1, None));
}

#[test]
fn sizes_add_up() {
    assert_eq!(dir_totals(&vec![1, 2, 3]), (3, 6));
    assert_eq!(staged_backup_size(&vec![10, 20]), 30);
}

#[test]
fn a_restore_names_both_devices_and_the_directory_above() {
    let config = RestoreConfig::default();
    assert_eq!(
        restore_args("NEW", "/s/OLD", "OLD", &config).unwrap(),
        vec!["-u", "NEW", "-s", "OLD", "restore", "/s"]
    );
    let config = RestoreConfig { reboot: false, system_files: true, restore_settings: true };
    assert_eq!(
        restore_args("NEW", "/s/OLD", "OLD", &config).unwrap(),
        vec!["-u", "NEW", "-s", "OLD", "restore", "--system", "--no-reboot", "--settings", "/s"]
    );
    assert_eq!(
        restore_args("NEW", "/", "OLD", &config).unwrap_err().message(),
        "staged directory / has no parent directory — expected <root>/OLD"
    );
    assert_eq!(
        restore_env(Some("pw")),
        vec![("BACKUP_PASSWORD".to_string(), "pw".to_string())]
    );
    assert!(restore_env(None).is_empty());
}

#[test]
fn a_restore_ends_as_its_tool_did() {
    let result = |outcome| RunResult { outcome, files_received: 1, bytes_transferred: 2 };
    assert_eq!(run(result(Ok(())), "T").unwrap().target_udid, "T");
    assert!(matches!(
        run(result(Err(CradleError::WrongBackupPassword)), "T"),
        Err(CradleError::WrongBackupPassword)
    ));
}
