//! The order in which backups, archives and restores go, and what they record.
use cradle::archive::BackupSummary;
use cradle::backup::{BackupError, Outcome};
use cradle::catalog::{Catalog, DeviceRecord, RunKind};
use cradle::libimobiledevice::DeviceInfo;
use cradle::precheck;
use cradle::restore;
use cradle::verify;
use cradle::workflow::{
    backup_obstacle, checked, find_candidate, restore_obstacle, restore_source, staged,
    ArchiveError, BackupObstacle, NotStartedReason, RestoreObstacle, RestoreSource, RestoreStop,
    TransferredRun, WorkflowError,
};
use cradle::CradleError;

const NOW: i64 = 1_700_000_000;

fn info(udid: &str) -> DeviceInfo {
    DeviceInfo {
        udid: udid.to_string(),
        name: "Phone".to_string(),
        product_type: "iPhone18,3".to_string(),
        ios_version: "26.6".to_string(),
    }
}

fn report(pairing_valid: bool, encryption_enabled: bool, free: Option<u64>) -> precheck::Report {
    precheck::Report {
        pairing_valid,
        pairing_message: None,
        encryption_enabled,
        free_space_bytes: free,
        free_space_ok: free.is_some_and(|n| n >= precheck::MIN_FREE_BYTES),
        free_memory_bytes: None,
        device: Some(info("U")),
    }
}

fn good() -> precheck::Report {
    report(true, true, Some(precheck::MIN_FREE_BYTES))
}

fn gate(outcome: verify::Outcome, problems: &[&str]) -> verify::Report {
    verify::Report {
        outcome,
        status_finished: true,
        manifest_integrity_checked: true,
        files_expected: None,
        files_missing: 0,
        files_on_disk: 8,
        files_reported: 8,
        total_bytes: 800,
        problems: problems.iter().map(|p| p.to_string()).collect(),
    }
}

fn transfer(catalog: &mut Catalog) -> TransferredRun {
    let run = checked(Ok(good())).unwrap().open_run(catalog, "U", Ok(()), NOW).unwrap();
    let moved = Outcome {
        udid: "U".to_string(),
        backup_dir: "/w/U".to_string(),
        files_received: 7,
        bytes_transferred: 70,
    };
    run.transferred(catalog, Ok(moved), NOW + 1).unwrap()
}

#[test]
fn a_backup_that_may_not_start_records_nothing() {
    match checked(Ok(report(true, false, None))) {
        Err(WorkflowError::NotStarted(NotStartedReason::Precheck(r))) => {
            assert!(!r.encryption_enabled)
        }
        _ => panic!("prechecks were to fail"),
    }
    let e = checked(Err(CradleError::DeviceLocked)).unwrap_err();
    assert_eq!(e.message(), CradleError::DeviceLocked.message());

    let mut catalog = Catalog::new();
    let refused = Err(CradleError::Other("held".to_string()));
    let e = checked(Ok(good())).unwrap().open_run(&mut catalog, "U", refused, NOW).unwrap_err();
    assert_eq!(e.message(), "held");
    assert!(catalog.list_devices().is_empty());
    assert!(catalog.run_rows().is_empty());
}

#[test]
fn a_verified_backup_leaves_a_verified_snapshot() {
    let mut catalog = Catalog::new();
    let t = transfer(&mut catalog);
    let (t, password) = t.with_password(&mut catalog, Ok(Some("pw".to_string())), NOW).unwrap();
    assert_eq!(password.as_deref(), Some("pw"));
    let done = t.judged(&mut catalog, Ok(gate(verify::Outcome::Verified, &[])), NOW + 2).unwrap();
    assert_eq!(done.backup_dir, "/w/U");
    let run = catalog.latest_run("U").unwrap();
    assert_eq!((run.status.as_str(), run.bytes, run.files), ("succeeded", Some(70), Some(8)));
    let snap = catalog.latest_verified_snapshot("U").unwrap();
    assert_eq!((snap.size, snap.ios_version.as_str()), (800, "26.6"));
    assert_eq!(snap.verified_at, Some(NOW + 2));
}

#[test]
fn a_backup_without_its_password_leaves_an_unverified_snapshot() {
    let mut catalog = Catalog::new();
    let t = transfer(&mut catalog);
    t.judged(&mut catalog, Ok(gate(verify::Outcome::NeedsPassword, &[])), NOW).unwrap();
    assert_eq!(catalog.latest_run("U").unwrap().status, "succeeded");
    assert!(catalog.latest_verified_snapshot("U").is_none());
    assert!(catalog.latest_snapshot("U").is_some());
}

#[test]
fn an_invalid_backup_fails_its_run_and_leaves_no_snapshot() {
    let mut catalog = Catalog::new();
    let t = transfer(&mut catalog);
    t.judged(&mut catalog, Ok(gate(verify::Outcome::Invalid, &["one.", "two."])), NOW).unwrap();
    let run = catalog.latest_run("U").unwrap();
    assert_eq!(run.status, "failed");
    assert_eq!(run.error.as_deref(), Some("one. two."));
    assert!(catalog.latest_snapshot("U").is_none());
}

#[test]
fn whatever_fails_closes_the_run_with_what_moved() {
    let mut catalog = Catalog::new();
    let run = checked(Ok(good())).unwrap().open_run(&mut catalog, "U", Ok(()), NOW).unwrap();
    let lost = BackupError {
        source: CradleError::Stalled,
        bytes_transferred: 5,
        files_received: 2,
    };
    match run.transferred(&mut catalog, Err(lost), NOW) {
        Err(WorkflowError::Failed { bytes_transferred: 5, files_transferred: 2, .. }) => {}
        _ => panic!("a failure was expected"),
    }
    let row = catalog.latest_run("U").unwrap();
    assert_eq!((row.status.as_str(), row.bytes, row.files), ("failed", Some(5), Some(2)));

    let t = transfer(&mut catalog);
    let e = t.with_password(&mut catalog, Err(CradleError::Other("k".to_string())), NOW + 3);
    assert_eq!(e.unwrap_err().message(), "k");
    assert_eq!(catalog.latest_run("U").unwrap().error.as_deref(), Some("k"));

    let t = transfer(&mut catalog);
    assert!(t.judged(&mut catalog, Err(CradleError::Other("v".to_string())), NOW).is_err());
    assert!(catalog.run_rows().iter().all(|r| r.status == "failed"));
}

#[test]
fn a_new_backup_closes_what_was_left_running() {
    let mut catalog = Catalog::new();
    checked(Ok(good())).unwrap().open_run(&mut catalog, "U", Ok(()), NOW).unwrap();
    checked(Ok(good())).unwrap().open_run(&mut catalog, "U", Ok(()), NOW).unwrap();
    let running: Vec<i64> = catalog
        .run_rows()
        .iter()
        .filter(|r| r.status == "running")
        .map(|r| r.id)
        .collect();
    assert_eq!(running, vec![2]);
}

#[test]
fn only_what_verifies_again_is_archived() {
    let mut catalog = Catalog::new();
    assert!(matches!(find_candidate(&catalog, "U", "/w"), Err(ArchiveError::NoVerifiedSnapshot)));
    let t = transfer(&mut catalog);
    t.judged(&mut catalog, Ok(gate(verify::Outcome::Verified, &[])), NOW).unwrap();
    let dest = catalog.create_destination("nas", "local", "/r", "acc").unwrap();

    let c = find_candidate(&catalog, "U", "/w").unwrap();
    assert_eq!((c.snapshot_id, c.source_dir.as_str()), (1, "/w/U"));
    assert_eq!(
        c.at_source(false).unwrap_err().message(),
        "backup directory /w/U not found"
    );

    let candidate = |catalog: &Catalog| {
        find_candidate(catalog, "U", "/w").unwrap().at_source(true).unwrap()
    };
    let held = Err(CradleError::Other("held".to_string()));
    let e = candidate(&catalog).locked(&mut catalog, held).unwrap_err();
    assert!(matches!(e, ArchiveError::Locked(_)));

    let locked = candidate(&catalog).locked(&mut catalog, Ok(())).unwrap();
    let (locked, _) = locked.with_password(Ok(None)).unwrap();
    let e = locked.judged(Ok(gate(verify::Outcome::Invalid, &["a", "b"]))).unwrap_err();
    assert_eq!(e.message(), "no longer verifies: a b");
    assert!(catalog.archive_rows().is_empty());

    let locked = candidate(&catalog).locked(&mut catalog, Ok(())).unwrap();
    let verified = locked.judged(Ok(gate(verify::Outcome::Verified, &[]))).unwrap();
    let pending = verified.open_archive(&mut catalog, Ok(true), dest, NOW).unwrap();
    let summary = BackupSummary {
        snapshot_id: "abc".to_string(),
        total_bytes_processed: 1,
        total_files_processed: 1,
        data_added: 1,
    };
    let done = pending.finished(&mut catalog, Ok(summary), NOW + 9).unwrap();
    assert_eq!(done.summary.snapshot_id, "abc");
    let a = &catalog.list_archives_for_snapshot(1)[0];
    assert_eq!((a.state.as_str(), a.restic_id.as_deref()), ("succeeded", Some("abc")));
    assert_eq!(a.verified_at, Some(NOW + 9));
}

#[test]
fn a_failed_archive_is_recorded_as_failed() {
    let mut catalog = Catalog::new();
    let t = transfer(&mut catalog);
    t.judged(&mut catalog, Ok(gate(verify::Outcome::Verified, &[])), NOW).unwrap();
    let dest = catalog.create_destination("nas", "local", "/r", "acc").unwrap();
    let verified = |catalog: &mut Catalog| {
        find_candidate(catalog, "U", "/w")
            .unwrap()
            .at_source(true)
            .unwrap()
            .locked(catalog, Ok(()))
            .unwrap()
            .judged(Ok(gate(verify::Outcome::Verified, &[])))
            .unwrap()
    };
    let v = verified(&mut catalog);
    assert!(v.open_archive(&mut catalog, Err(CradleError::Stalled), dest, NOW).is_err());
    assert!(catalog.archive_rows().is_empty());
    let v = verified(&mut catalog);
    assert!(v.open_archive(&mut catalog, Ok(false), dest + 1, NOW).is_err());
    let v = verified(&mut catalog);
    let pending = v.open_archive(&mut catalog, Ok(false), dest, NOW).unwrap();
    let e = pending.finished(&mut catalog, Err(CradleError::Other("full".to_string())), NOW);
    assert_eq!(e.unwrap_err().message(), "full");
    let a = &catalog.list_archives_for_snapshot(1)[0];
    assert_eq!((a.state.as_str(), a.error.as_deref()), ("failed", Some("full")));
    assert_eq!(a.verified_at, None);
}

#[test]
fn the_first_obstacle_is_the_one_reported() {
    assert!(backup_obstacle(&good()).is_none());
    assert!(matches!(
        backup_obstacle(&report(false, false, None)),
        Some(BackupObstacle::Pairing(m)) if m == "Pairing check failed."
    ));
    assert!(matches!(
        backup_obstacle(&report(true, false, None)),
        Some(BackupObstacle::EncryptionOff)
    ));
    assert!(matches!(
        backup_obstacle(&report(true, true, Some(3))),
        Some(BackupObstacle::LittleSpace(3))
    ));
    assert!(matches!(
        backup_obstacle(&report(true, true, None)),
        Some(BackupObstacle::SpaceUnknown)
    ));
}

fn target(find_my_disabled: bool, ios_ok: bool, free: Option<u64>) -> precheck::RestoreReport {
    precheck::RestoreReport {
        pairing_valid: true,
        pairing_message: None,
        find_my_disabled,
        target_ios_version: None,
        backup_ios_version: "26.6".to_string(),
        target_ios_ok: ios_ok,
        backup_size_bytes: 10,
        target_free_bytes: free,
        enough_target_space: free.is_some_and(|n| n >= 10),
        device: Some(info("NEW")),
    }
}

#[test]
fn each_obstacle_to_a_restore_is_named() {
    assert!(restore_obstacle(&target(true, true, Some(10))).is_none());
    assert!(matches!(
        restore_obstacle(&target(false, false, None)),
        Some(RestoreObstacle::FindMyEnabled)
    ));
    match restore_obstacle(&target(true, false, None)) {
        Some(RestoreObstacle::OlderIos { target, backup }) => {
            assert_eq!((target.as_str(), backup.as_str()), ("unknown", "26.6"));
        }
        _ => panic!("an older iOS was expected"),
    }
    assert!(matches!(
        restore_obstacle(&target(true, true, Some(9))),
        Some(RestoreObstacle::LittleSpace { needed: 10, free: 9 })
    ));
    assert!(matches!(
        restore_obstacle(&target(true, true, None)),
        Some(RestoreObstacle::SpaceUnknown)
    ));
}

#[test]
fn a_restore_is_recorded_from_start_to_end() {
    let mut catalog = Catalog::new();
    let ready = || {
        staged("NEW", "ASKED".to_string(), "/s/OLD")
            .measured(Ok("26.6".to_string()), Ok(10))
            .unwrap()
    };
    let m = ready();
    assert_eq!((m.staged.source.as_str(), m.staged.target.as_str()), ("OLD", "NEW"));
    assert!(matches!(
        m.checked(Ok(target(false, true, None))),
        Err(RestoreStop::Obstacle(RestoreObstacle::FindMyEnabled))
    ));
    assert!(matches!(
        ready().checked(Err(CradleError::Stalled)),
        Err(RestoreStop::Unchecked(CradleError::Stalled))
    ));

    let open = ready()
        .checked(Ok(target(true, true, Some(10))))
        .unwrap()
        .open_run(&mut catalog, true, NOW)
        .unwrap();
    assert_eq!(catalog.latest_run("NEW").unwrap().status, "running");
    let (open, password) = open
        .with_password(
            &mut catalog,
            Some("given".to_string()),
            Ok(Some("stored".to_string())),
            NOW,
        )
        .unwrap();
    assert_eq!(password.as_deref(), Some("given"));
    let done = open
        .finished(
            &mut catalog,
            Ok(restore::Outcome { target_udid: "NEW".to_string() }),
            true,
            NOW + 1,
        )
        .unwrap();
    assert_eq!((done.source_udid.as_str(), done.rebooted), ("OLD", true));
    let run = catalog.latest_run("NEW").unwrap();
    assert_eq!((run.kind.as_str(), run.status.as_str()), ("restore", "succeeded"));

    let open = ready()
        .checked(Ok(target(true, true, Some(10))))
        .unwrap()
        .open_run(&mut catalog, true, NOW + 2)
        .unwrap();
    let e = open.finished(&mut catalog, Err(CradleError::WrongBackupPassword), true, NOW + 3);
    assert!(e.is_err());
    assert_eq!(catalog.latest_run("NEW").unwrap().status, "failed");

    let open = ready()
        .checked(Ok(target(true, true, Some(10))))
        .unwrap()
        .open_run(&mut catalog, true, NOW + 4)
        .unwrap();
    assert_eq!(catalog.latest_run("NEW").unwrap().status, "running");
    let lost = Err(CradleError::Other("no Keychain".to_string()));
    assert!(open.with_password(&mut catalog, None, lost, NOW + 5).is_err());
    let run = catalog.latest_run("NEW").unwrap();
    assert_eq!((run.status.as_str(), run.ended_at), ("failed", Some(NOW + 5)));
    assert_eq!(run.error.as_deref(), Some("no Keychain"));
}

#[test]
fn a_restore_falls_back_on_the_device_asked_for() {
    assert_eq!(staged("T", "ASKED".to_string(), "/").source, "ASKED");
    assert!(staged("T", "A".to_string(), "/s/A")
        .measured(Err(CradleError::Stalled), Err(CradleError::DeviceLocked))
        .is_err_and(|e| matches!(e, CradleError::Stalled)));
    let unknown = staged("T", "A".to_string(), "/s/A")
        .measured(Ok("1".to_string()), Ok(1))
        .unwrap()
        .checked(Ok(precheck::RestoreReport { device: None, ..target(true, true, Some(10)) }))
        .unwrap()
        .open_run(&mut Catalog::new(), false, NOW);
    assert!(unknown.unwrap_err().message().contains("FOREIGN KEY"));
    let mut catalog = Catalog::new();
    catalog.upsert_device(
        &DeviceRecord {
            udid: "T".to_string(),
            name: String::new(),
            product_type: String::new(),
            ios_version: String::new(),
            encrypted: false,
        },
        NOW,
    );
    catalog.start_run("T", RunKind::Restore, NOW).unwrap();
    let both = restore_source(Some("nas".to_string()), Some("abc".to_string()));
    assert!(matches!(both, RestoreSource::Archive { destination, .. } if destination == "nas"));
    assert!(matches!(restore_source(Some("nas".to_string()), None), RestoreSource::Working));
    assert!(matches!(restore_source(None, None), RestoreSource::Working));
}
