//! What the desktop application lists, decides and says.
use cradle::archive::{self, ResticSnapshot};
use cradle::backup::RetryReason;
use cradle::catalog::{ArchiveState, Catalog, DeviceRecord, RunKind};
use cradle::commands::{
    archive_refusal, archive_summary, backup_refusal, backup_summary, device_entry, expand_tilde,
    get_history, list_archive_snapshots, list_destinations, list_local_backups,
    list_restore_sources, password_candidate, password_tried, require_local_backup,
    resolve_scratch_dir, resolve_working_dir, restore_refusal, retry_word,
};
use cradle::libimobiledevice::{AttachedDevice, DeviceInfo, Transport};
use cradle::precheck;
use cradle::verify;
use cradle::workflow::{ArchiveError, BackupOutcome, RestoreObstacle};
use cradle::CradleError;

const NOW: i64 = 1_700_000_000;

fn gate(outcome: verify::Outcome) -> verify::Report {
    verify::Report {
        outcome,
        status_finished: true,
        manifest_integrity_checked: outcome != verify::Outcome::NeedsPassword,
        files_expected: None,
        files_missing: 0,
        files_on_disk: 3,
        files_reported: 0,
        total_bytes: 30,
        problems: vec!["broken".to_string()],
    }
}

fn catalog() -> Catalog {
    let mut c = Catalog::new();
    for (udid, name, seen) in [("A", "Old", NOW), ("B", "New", NOW + 1)] {
        c.upsert_device(
            &DeviceRecord {
                udid: udid.to_string(),
                name: name.to_string(),
                product_type: "P".to_string(),
                ios_version: "26".to_string(),
                encrypted: true,
            },
            seen,
        );
    }
    c
}

#[test]
fn directories_are_chosen_or_the_usual_ones() {
    let home = Some("/home/u");
    assert_eq!(resolve_working_dir(None, home, "/tmp"), "/home/u/Cradle/working");
    assert_eq!(resolve_working_dir(Some("  "), home, "/tmp"), "/home/u/Cradle/working");
    assert_eq!(resolve_working_dir(Some(" ~/x "), home, "/tmp"), "/home/u/x");
    assert_eq!(resolve_scratch_dir(Some("/s"), None, "/tmp"), "/s");
    assert_eq!(resolve_scratch_dir(None, None, "/tmp"), "/tmp/Cradle/scratch");
    assert_eq!(expand_tilde("~", home), "/home/u/");
    assert_eq!(expand_tilde("~/x", None), "~/x");
    assert_eq!(expand_tilde("~x", home), "~x");
}

#[test]
fn a_device_shows_when_it_was_last_verified() {
    let mut c = catalog();
    let run = c.start_run("A", RunKind::Backup, NOW).unwrap();
    c.record_snapshot("A", run, 5, "26", true, NOW + 7).unwrap();
    c.record_snapshot("A", run, 5, "26", false, NOW + 9).unwrap();
    let attached = || AttachedDevice { udid: "A".to_string(), transport: Transport::Network };
    let info = DeviceInfo {
        udid: "A".to_string(),
        name: "Old".to_string(),
        product_type: "P".to_string(),
        ios_version: "26".to_string(),
    };
    let d = device_entry(&c, attached(), Ok(info), true);
    assert_eq!(d.transport, "Network");
    assert!(d.reachable && d.encryption_enabled);
    assert_eq!(d.last_backup_at, Some(NOW + 7));
    let d = device_entry(&c, attached(), Err(CradleError::DeviceLocked), true);
    assert!(!d.reachable && !d.encryption_enabled && d.pairing_message.is_some());
}

#[test]
fn a_password_is_tried_on_the_latest_snapshot() {
    let mut c = catalog();
    assert_eq!(
        password_candidate(&c, "A", "", true).unwrap_err(),
        "Password was empty — not storing it."
    );
    assert_eq!(
        password_candidate(&c, "A", "p", false).unwrap_err(),
        "No backup found for this device yet — back it up first."
    );
    assert_eq!(
        password_candidate(&c, "A", "p", true).unwrap_err(),
        "No recorded snapshot for this device yet — back it up first."
    );
    let run = c.start_run("A", RunKind::Backup, NOW).unwrap();
    let id = c.record_snapshot("A", run, 5, "26", false, NOW).unwrap();
    assert_eq!(password_candidate(&c, "A", "p", true).unwrap(), id);

    let r = password_tried(&mut c, id, gate(verify::Outcome::Invalid), Ok(()), NOW).unwrap();
    assert!(!r.verified);
    assert!(c.latest_verified_snapshot("A").is_none());
    let denied = Err(CradleError::Other("denied".to_string()));
    let e = password_tried(&mut c, id, gate(verify::Outcome::Verified), denied, NOW).unwrap_err();
    assert_eq!(e, "denied");
    assert!(c.latest_verified_snapshot("A").is_none());
    let r = password_tried(&mut c, id, gate(verify::Outcome::Verified), Ok(()), NOW + 4).unwrap();
    assert_eq!((r.verified, r.files, r.bytes), (true, 3, 30));
    assert_eq!(c.latest_verified_snapshot("A").unwrap().verified_at, Some(NOW + 4));
}

#[test]
fn a_backup_is_summed_up() {
    let outcome = |o| BackupOutcome {
        backup_dir: "/w/A".to_string(),
        bytes_transferred: 1,
        gate: gate(o),
    };
    let s = backup_summary(outcome(verify::Outcome::Verified));
    assert!(s.verified && s.problems.is_empty());
    let s = backup_summary(outcome(verify::Outcome::NeedsPassword));
    assert!(s.needs_password && !s.manifest_integrity_checked);
    assert!(s.problems[0].starts_with("No stored backup password — "));
    let s = backup_summary(outcome(verify::Outcome::Invalid));
    assert_eq!(s.problems, vec!["broken"]);
    assert_eq!(retry_word(RetryReason::DeviceLocked), "device_locked");
    assert_eq!(retry_word(RetryReason::HostIo), "host_io");
    assert_eq!(retry_word(RetryReason::Stalled), "stalled");
}

#[test]
fn a_backup_that_does_not_start_says_why_in_the_window() {
    let report = |pairing_valid: bool, encryption_enabled: bool, free: Option<u64>| {
        precheck::Report {
            pairing_valid,
            pairing_message: None,
            encryption_enabled,
            free_space_bytes: free,
            free_space_ok: false,
            free_memory_bytes: None,
            device: None,
        }
    };
    assert_eq!(backup_refusal(&report(false, true, None)), "Pairing check failed.");
    assert!(backup_refusal(&report(true, false, None)).contains("\"Set backup password\" panel"));
    assert_eq!(
        backup_refusal(&report(true, true, Some(7))),
        format!(
            "Only 7 bytes free on the working volume; want at least {} bytes before starting a \
             backup.",
            precheck::MIN_FREE_BYTES
        )
    );
    assert!(backup_refusal(&report(true, true, None)).starts_with("Could not measure free space"));
}

#[test]
fn runs_and_destinations_are_listed() {
    let mut c = catalog();
    c.start_run("A", RunKind::Backup, NOW).unwrap();
    c.create_destination("nas", "local", "/r", "acc").unwrap();
    let h = get_history(&c, "A");
    assert_eq!((h.len(), h[0].kind.as_str(), h[0].status.as_str()), (1, "backup", "running"));
    let d = list_destinations(&c);
    assert_eq!((d[0].name.as_str(), d[0].kind.as_str(), d[0].uri.as_str()), ("nas", "local", "/r"));
}

#[test]
fn archived_snapshots_know_their_device() {
    let snap = |paths: &[&str]| ResticSnapshot {
        id: "i".to_string(),
        short_id: "s".to_string(),
        time: "t".to_string(),
        paths: paths.iter().map(|p| p.to_string()).collect(),
    };
    let out = list_archive_snapshots(&catalog(), &vec![snap(&["/w/A"]), snap(&["/w/Z"]), snap(&[])]);
    assert_eq!(out[0].source_udid.as_deref(), Some("A"));
    assert_eq!(out[0].source_name.as_deref(), Some("Old"));
    assert_eq!(out[1].source_udid.as_deref(), Some("Z"));
    assert_eq!(out[1].source_name, None);
    assert_eq!(out[2].source_udid, None);
}

#[test]
fn local_backups_are_those_that_are_there() {
    let mut c = catalog();
    let run = c.start_run("A", RunKind::Backup, NOW).unwrap();
    let snap = c.record_snapshot("A", run, 55, "26", true, NOW + 3).unwrap();
    let sources = list_restore_sources(&c, &vec![false, true]);
    assert_eq!((sources[0].udid.as_str(), sources[0].has_local_backup), ("B", false));
    assert_eq!((sources[1].udid.as_str(), sources[1].has_local_backup), ("A", true));
    let local = list_local_backups(&c, &vec![false, true]);
    assert_eq!(local.len(), 1);
    assert_eq!((local[0].udid.as_str(), local[0].size_bytes), ("A", Some(55)));
    assert_eq!((local[0].last_backup_at, local[0].archived), (Some(NOW + 3), false));

    let dest = c.create_destination("nas", "local", "/r", "acc").unwrap();
    let archive = c.start_archive(snap, dest, NOW).unwrap();
    assert!(!list_local_backups(&c, &vec![true, true])[1].archived);
    c.finish_archive(archive, ArchiveState::Succeeded, Some("x"), None, NOW);
    let local = list_local_backups(&c, &vec![true, true]);
    assert!(local[1].archived);
    assert_eq!((local[0].size_bytes, local[0].last_backup_at), (None, None));
    assert!(require_local_backup(true).is_ok());
    assert_eq!(
        require_local_backup(false).unwrap_err(),
        "No local backup found for this device."
    );
}

#[test]
fn archives_and_restores_that_fail_say_why_in_the_window() {
    let s = archive_summary(archive::BackupSummary {
        snapshot_id: "x".to_string(),
        total_bytes_processed: 1,
        total_files_processed: 2,
        data_added: 3,
    });
    assert_eq!((s.snapshot_id.as_str(), s.data_added), ("x", 3));
    assert_eq!(
        archive_refusal("A", &ArchiveError::NoVerifiedSnapshot),
        "No verified snapshot for A yet — back it up first."
    );
    assert_eq!(
        archive_refusal("A", &ArchiveError::SourceMissing("/w/A".to_string())),
        "Backup directory /w/A not found — was it moved since the last backup?"
    );
    let stale = ArchiveError::NoLongerVerified(gate(verify::Outcome::Invalid));
    assert!(archive_refusal("A", &stale).ends_with("Not archiving it:\nbroken"));
    let locked = ArchiveError::NoLongerVerified(gate(verify::Outcome::NeedsPassword));
    assert!(archive_refusal("A", &locked).contains("set a backup password"));
    assert_eq!(archive_refusal("A", &ArchiveError::Locked(CradleError::Other("b".to_string()))), "b");
    assert_eq!(archive_refusal("A", &ArchiveError::Failed(CradleError::Other("f".to_string()))), "f");

    assert!(restore_refusal(RestoreObstacle::LittleSpace { needed: 2_000_000_000, free: 1 })
        .ends_with("2.0 GB, but only 0.0 GB is free. Free up space on the device (or delete some \
                    apps/media) and try again."));
    assert_eq!(restore_refusal(RestoreObstacle::Pairing("p".to_string())), "p");
    assert!(restore_refusal(RestoreObstacle::FindMyEnabled).starts_with("Find My is enabled"));
    assert!(restore_refusal(RestoreObstacle::SpaceUnknown).starts_with("Could not read how much"));
    assert!(restore_refusal(RestoreObstacle::OlderIos {
        target: "1".to_string(),
        backup: "2".to_string()
    })
    .contains("backward"));
}
