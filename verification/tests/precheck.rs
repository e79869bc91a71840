//! What has to hold before a backup or a restore starts.
use cradle::libimobiledevice::{DeviceInfo, PairingCheck};
use cradle::precheck::{
    free_disk_space, ios_version_at_least, measure_at, measure_instead, parse_version, run,
    run_restore, BackupAnswers, RestoreAnswers, RestoreReport, MIN_FREE_BYTES,
};

#[test]
fn longer_prefix_beats_shorter() {
    assert!(ios_version_at_least("26.6.1", "26.6"));
    assert!(!ios_version_at_least("26.6", "26.6.1"));
}

#[test]
fn numeric_not_lexical() {
    assert!(ios_version_at_least("10.0", "9.0"));
    assert!(!ios_version_at_least("9.0", "10.0"));
}

#[test]
fn equal_versions_pass() {
    assert!(ios_version_at_least("18.1.2", "18.1.2"));
}

fn base_report() -> RestoreReport {
    RestoreReport {
        pairing_valid: true,
        pairing_message: None,
        find_my_disabled: true,
        target_ios_version: Some("26.6.2".to_string()),
        backup_ios_version: "26.6.2".to_string(),
        target_ios_ok: true,
        backup_size_bytes: 10,
        target_free_bytes: Some(20),
        enough_target_space: true,
        device: None,
    }
}

#[test]
fn passes_when_every_check_including_space_is_fine() {
    assert!(base_report().passed());
}

#[test]
fn fails_when_target_does_not_have_enough_space_even_if_everything_else_passes() {
    let report = RestoreReport {
        backup_size_bytes: 50_000_000_000,
        target_free_bytes: Some(40_000_000_000),
        enough_target_space: false,
        ..base_report()
    };
    assert!(!report.passed());
}

#[test]
fn unknown_free_space_is_never_treated_as_enough() {
    let report = RestoreReport {
        target_free_bytes: None,
        enough_target_space: false,
        ..base_report()
    };
    assert!(!report.passed());
}

#[test]
fn an_unmounted_volumes_path_reports_unknown_rather_than_the_internal_disk() {
    let path = "/Volumes/cradle-definitely-not-a-real-mounted-volume-xyz/working";
    assert!(!std::path::Path::new(path).exists());
    let mut exists = Vec::new();
    let mut at = Some(path.to_string());
    while let Some(p) = at {
        exists.push(std::path::Path::new(&p).exists());
        at = measure_instead(&p);
    }
    assert_eq!(measure_at(path, &exists), None);
}

#[test]
fn a_directory_that_is_not_there_yet_is_measured_where_it_will_be() {
    assert_eq!(measure_at("/a/b/c", &vec![false, false, true]).as_deref(), Some("/a"));
    assert_eq!(measure_at("/a/b/c", &vec![true]).as_deref(), Some("/a/b/c"));
    let deep = "/Volumes/x/a/b/c";
    assert_eq!(measure_at(deep, &vec![false, false, false, false, true, true]), None);
    assert_eq!(measure_at(deep, &vec![false, false, true]).as_deref(), Some("/Volumes/x/a"));
    assert_eq!(measure_instead("/"), None);
    assert_eq!(measure_instead("/Volumes/x"), None);
    assert_eq!(measure_instead("/Volumes/x/y").as_deref(), Some("/Volumes/x"));
    assert_eq!(free_disk_space(3, 4096), Some(12_288));
    assert_eq!(free_disk_space(u64::MAX, 2), None);
}

#[test]
fn parts_of_a_version_that_are_no_numbers_count_as_nothing() {
    assert_eq!(parse_version("26.6.1"), vec![26, 6, 1]);
    assert_eq!(parse_version("26.x.1"), vec![26, 0, 1]);
    assert!(ios_version_at_least("18", "17.9.9"));
    assert!(!ios_version_at_least("", "1"));
}

fn info() -> DeviceInfo {
    DeviceInfo {
        udid: "U".to_string(),
        name: "N".to_string(),
        product_type: "P".to_string(),
        ios_version: "26.6".to_string(),
    }
}

fn paired() -> PairingCheck {
    PairingCheck { valid: true, message: None }
}

#[test]
fn a_backup_needs_pairing_encryption_and_space() {
    let answers = || BackupAnswers { device: Some(info()), encryption_enabled: true };
    let r = run(Some(MIN_FREE_BYTES), None, paired(), answers());
    assert!(r.passed());
    assert_eq!(r.device.unwrap().udid, "U");
    assert!(!run(Some(MIN_FREE_BYTES - 1), None, paired(), answers()).passed());
    assert!(!run(None, None, paired(), answers()).passed());
    let off = BackupAnswers { device: Some(info()), encryption_enabled: false };
    assert!(!run(Some(MIN_FREE_BYTES), None, paired(), off).passed());
    let unpaired = PairingCheck { valid: false, message: Some("m".to_string()) };
    let r = run(Some(MIN_FREE_BYTES), Some(1), unpaired, answers());
    assert!(!r.passed());
    assert_eq!(r.pairing_message.as_deref(), Some("m"));
}

#[test]
fn a_restore_needs_room_and_a_new_enough_target() {
    let answers = |free: Option<u64>, find_my: bool| RestoreAnswers {
        device: Some(info()),
        find_my_associated: find_my,
        free_bytes: free,
    };
    assert!(run_restore(paired(), answers(Some(11), false), "26.6", 10).passed());
    assert!(run_restore(paired(), answers(Some(10), false), "26.6", 10).enough_target_space);
    assert!(!run_restore(paired(), answers(Some(9), false), "26.6", 10).passed());
    assert!(!run_restore(paired(), answers(None, false), "26.6", 0).passed());
    assert!(!run_restore(paired(), answers(Some(11), true), "26.6", 10).passed());
    let r = run_restore(paired(), answers(Some(11), false), "26.6.1", 10);
    assert!(!r.target_ios_ok);
    assert_eq!(r.target_ios_version.as_deref(), Some("26.6"));
}
