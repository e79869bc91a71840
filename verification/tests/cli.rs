//! What the terminal commands decide and say.
use cradle::archive::{
    BackupSummary, CheckMode, CheckSummary, ForgetSummary, ResticSnapshot, RestoreSummary,
    RetentionPolicy, RetentionPreview, RetentionPreviewEntry,
};
use cradle::backup::RetryReason;
use cradle::catalog::{Catalog, DeviceRecord, RunKind, RunStatus};
use cradle::cli::{
    all_ok, archive_lines, archive_refusal, archived_line, backup_json, backup_verdict, bail,
    check_mode, check_verdict, decrypt_password, decrypted_line, describe, device_line,
    doctor_line, encryption_key, fetched_line, format_timestamp, json_device, precheck_refusal,
    preview_lines, pruned, read_encryption_key, require_password, resolve_udid, restore_config,
    restore_refusal, restored_line, retry_line, run_decrypt, run_doctor, run_history,
    run_line_from, snapshot_line_from, timestamp_or_number, DoctorAnswers, EMPTY_NOT_STORED,
};
use cradle::destinations::{
    add_destination, added_line, connect_destination, connected_line, destination_lines, probe,
    remove_destination, removed_line, require_free_name, resolve_destination,
};
use cradle::libimobiledevice::{AttachedDevice, DeviceInfo, Transport};
use cradle::precheck;
use cradle::restore::Outcome;
use cradle::verify;
use cradle::workflow::{ArchiveError, BackupOutcome, RestoreObstacle};
use cradle::CradleError;

const NOW: i64 = 1_700_000_000;

fn info() -> DeviceInfo {
    DeviceInfo {
        udid: "U".to_string(),
        name: "Phone".to_string(),
        product_type: "iPhone18,3".to_string(),
        ios_version: "26.6".to_string(),
    }
}

fn attached(udid: &str) -> AttachedDevice {
    AttachedDevice { udid: udid.to_string(), transport: Transport::Usb }
}

#[test]
fn only_a_script_is_told_the_category() {
    let f = bail(true, "locked", "busy");
    assert_eq!(f.error, "busy");
    let p = f.printed.unwrap();
    assert_eq!((p.category.as_str(), p.message.as_str()), ("locked", "busy"));
    assert!(bail(false, "locked", "busy").printed.is_none());
}

#[test]
fn devices_are_listed_with_what_is_known_of_them() {
    assert_eq!(describe(&info()), "Phone (iPhone18,3, iOS 26.6)");
    assert_eq!(
        device_line(&attached("U"), &Ok(info())),
        "U\tUsb\tPhone (iPhone18,3, iOS 26.6)"
    );
    let e = CradleError::ToolFailed("no pairing".to_string());
    let words = e.message();
    let net = AttachedDevice { udid: "V".to_string(), transport: Transport::Network };
    assert_eq!(device_line(&net, &Err(e)), format!("V\tNetwork\t({words})"));
    let j = json_device(attached("U"), Ok(info()));
    assert!(j.reachable && j.pairing_error.is_none());
    let j = json_device(attached("U"), Err(CradleError::DeviceLocked));
    assert!(!j.reachable && j.name.is_none() && j.pairing_error.is_some());
}

#[test]
fn a_device_is_picked_only_where_there_is_one() {
    assert_eq!(resolve_udid(Some("X".to_string()), &vec![]).unwrap(), "X");
    assert_eq!(resolve_udid(None, &vec![attached("A")]).unwrap(), "A");
    assert_eq!(
        resolve_udid(None, &vec![]).unwrap_err(),
        "No devices attached. Connect an iPhone or iPad and unlock it."
    );
    assert_eq!(
        resolve_udid(None, &vec![attached("A"), attached("B")]).unwrap_err(),
        "Multiple devices attached — pass --udid to choose one."
    );
}

fn answers() -> DoctorAnswers {
    let at = |p: &str| Ok(p.to_string());
    DoctorAnswers {
        idevice_id: at("/b/idevice_id"),
        ideviceinfo: at("/b/ideviceinfo"),
        idevicepair: at("/b/idevicepair"),
        idevicebackup2: at("/b/idevicebackup2"),
        restic: at("/b/restic"),
        devices: Ok(2),
        working_dir: "/w".to_string(),
        working_free: Some(1024),
        scratch_dir: "/s".to_string(),
        scratch_free: Some(2048),
        catalog_path: "/c.db".to_string(),
        catalog: Ok(()),
    }
}

#[test]
fn the_doctor_looks_at_everything_in_order() {
    let checks = run_doctor(&answers());
    let lines: Vec<String> = checks.iter().map(doctor_line).collect();
    assert_eq!(
        lines,
        vec![
            "[ok]   idevice_id: /b/idevice_id",
            "[ok]   ideviceinfo: /b/ideviceinfo",
            "[ok]   idevicepair: /b/idevicepair",
            "[ok]   idevicebackup2: /b/idevicebackup2",
            "[ok]   restic: /b/restic",
            "[ok]   usbmuxd: reachable, 2 device(s) currently seen",
            "[ok]   working directory (/w): 1.0 KB free",
            "[ok]   scratch directory (/s): 2.0 KB free",
            "[ok]   catalog (/c.db): opens fine",
        ]
    );
    assert!(all_ok(&checks));

    let sick = DoctorAnswers {
        restic: Err(CradleError::ToolNotFound("restic")),
        scratch_free: None,
        catalog: Err(CradleError::Other("broken".to_string())),
        ..answers()
    };
    let checks = run_doctor(&sick);
    assert!(!all_ok(&checks));
    assert!(checks[4].detail.ends_with(" (try `brew install restic`)"));
    assert_eq!(
        doctor_line(&checks[7]),
        "[FAIL] scratch directory (/s): could not measure free space — is its volume mounted?"
    );
    assert_eq!(checks[8].detail, "broken");
}

#[test]
fn a_retry_says_why_and_how_often() {
    assert_eq!(
        retry_line(RetryReason::DeviceLocked, 2, 12),
        "\nDevice locked mid-backup — unlock it now. Retrying in 10s (attempt 2/12)..."
    );
    assert_eq!(
        retry_line(RetryReason::HostIo, 1, 3),
        "\nHost-side I/O error (device error 104) — usually low memory on this Mac. Retrying in 30s \
         (attempt 1/3)..."
    );
    assert!(retry_line(RetryReason::Stalled, 1, 3).ends_with("Retrying in 30s (attempt 1/3)..."));
}

fn outcome(outcome: verify::Outcome) -> BackupOutcome {
    BackupOutcome {
        backup_dir: "/w/U".to_string(),
        bytes_transferred: 1,
        gate: verify::Report {
            outcome,
            status_finished: true,
            manifest_integrity_checked: true,
            files_expected: Some(3),
            files_missing: 0,
            files_on_disk: 3,
            files_reported: 3,
            total_bytes: 1536,
            problems: vec!["one.".to_string(), "two.".to_string()],
        },
    }
}

#[test]
fn a_backup_is_judged_in_words_and_for_scripts() {
    assert_eq!(
        backup_verdict(&outcome(verify::Outcome::Verified)).unwrap(),
        "Backup verified: /w/U (3 files, 1.5 KB, Manifest.db integrity confirmed)."
    );
    assert!(backup_verdict(&outcome(verify::Outcome::NeedsPassword))
        .unwrap()
        .starts_with("Backup completed but not verified: /w/U (3 files, 1.5 KB). No stored"));
    assert_eq!(
        backup_verdict(&outcome(verify::Outcome::Invalid)).unwrap_err(),
        "Backup did not pass verification — treat /w/U as failed, not a usable snapshot:\none.\ntwo."
    );
    let (json, result) = backup_json(outcome(verify::Outcome::NeedsPassword));
    assert!(json.needs_password && !json.verified && result.is_ok());
    let (json, result) = backup_json(outcome(verify::Outcome::Invalid));
    assert_eq!((json.files, json.bytes, json.problems.len()), (3, 1536, 2));
    assert_eq!(result.unwrap_err(), "Backup did not pass verification.");
}

#[test]
fn a_backup_that_does_not_start_says_why() {
    let report = |pairing_valid: bool, encryption_enabled: bool, free: Option<u64>| {
        precheck::Report {
            pairing_valid,
            pairing_message: Some("trust me".to_string()),
            encryption_enabled,
            free_space_bytes: free,
            free_space_ok: false,
            free_memory_bytes: None,
            device: None,
        }
    };
    let r = precheck_refusal(&report(false, true, None), "U");
    assert_eq!((r.category.as_str(), r.message.as_str()), ("pairing_invalid", "trust me"));
    let r = precheck_refusal(&report(true, false, None), "U");
    assert_eq!(r.category, "encryption_disabled");
    assert!(r.message.contains("`cradle password enable --udid U`"));
    let r = precheck_refusal(&report(true, true, Some(1024)), "U");
    assert_eq!(r.category, "insufficient_space");
    assert!(r.message.starts_with("Only 1.0 KB free on the working volume; want at least "));
    let r = precheck_refusal(&report(true, true, None), "U");
    assert_eq!(r.category, "space_unknown");
}

#[test]
fn moments_are_written_as_dates_where_they_have_one() {
    assert_eq!(format_timestamp(0), "1970-01-01T00:00:00Z");
    assert_eq!(format_timestamp(NOW), "2023-11-14T22:13:20Z");
    assert_eq!(format_timestamp(i64::MAX), i64::MAX.to_string());
    assert_eq!(timestamp_or_number(None, -5), "-5");
}

fn catalog() -> Catalog {
    let mut c = Catalog::new();
    c.upsert_device(
        &DeviceRecord {
            udid: "U".to_string(),
            name: "Phone".to_string(),
            product_type: "P".to_string(),
            ios_version: "26.6".to_string(),
            encrypted: true,
        },
        NOW,
    );
    c
}

#[test]
fn history_lists_runs_and_snapshots() {
    let mut c = catalog();
    assert_eq!(run_history(&c, "U", "/c.db"), vec!["No runs recorded for U in /c.db."]);
    let one = c.start_run("U", RunKind::Backup, NOW).unwrap();
    c.finish_run_with_snapshot(one, 2048, 3, "U", 1024, "26.6", true, NOW + 61).unwrap();
    let two = c.start_run("U", RunKind::Backup, NOW + 100).unwrap();
    c.finish_run(two, RunStatus::Failed, 0, 0, Some("locked"), NOW + 99);
    c.start_run("U", RunKind::Restore, NOW + 200).unwrap();
    let lines = run_history(&c, "U", "/c.db");
    assert_eq!(
        lines,
        vec![
            "#3    restore   running    2023-11-14T22:16:40Z  (still running)",
            "#2    backup    failed     2023-11-14T22:15:00Z  (0s)  0.0 B moved  0 files  — locked",
            "#1    backup    succeeded  2023-11-14T22:13:20Z  (61s)  2.0 KB moved  3 files",
            "\nSnapshots:",
            "  snapshot #1  run #1  2023-11-14T22:14:21Z  1.0 KB  iOS 26.6  [verified]",
        ]
    );
    assert!(run_line_from(&c.latest_run("U").unwrap(), "then").contains(" then  ("));
    let snap = c.latest_snapshot("U").unwrap();
    assert!(snapshot_line_from(&snap, "then").contains("  then  "));
}

#[test]
fn destinations_come_and_go() {
    let mut c = catalog();
    assert_eq!(
        destination_lines(&c),
        vec!["No destinations configured. Add one with `cradle destination add`."]
    );
    assert!(require_free_name(&c, "nas").is_ok());
    let d = probe("nas", "local", "/repo", "acc");
    assert_eq!(d.id, 0);
    let s = add_destination(&mut c, &d, Err(CradleError::Other("no disk".to_string()))).unwrap_err();
    assert!(s.drop_credential);
    assert_eq!(s.error, "no disk");
    assert!(c.destination_rows().is_empty());
    assert!(add_destination(&mut c, &d, Ok(true)).unwrap());
    let s = add_destination(&mut c, &d, Ok(true)).unwrap_err();
    assert!(!s.drop_credential);
    assert_eq!(
        require_free_name(&c, "nas").unwrap_err(),
        "A destination named 'nas' already exists."
    );
    let usb = probe("usb", "local", "/usb", "acc2");
    let s = connect_destination(&mut c, &usb, Err(CradleError::Other("bad".to_string())))
        .unwrap_err();
    assert_eq!(s.error, "Could not open the repository at /usb with that password: bad");
    connect_destination(&mut c, &usb, Ok(())).unwrap();
    assert_eq!(destination_lines(&c), vec!["nas          local    /repo", "usb          local    /usb"]);
    assert_eq!(resolve_destination(&c, "usb").unwrap().uri, "/usb");
    assert_eq!(remove_destination(&mut c, "usb").unwrap().credential_ref, "acc2");
    assert!(remove_destination(&mut c, "usb").is_none());
    assert_eq!(
        resolve_destination(&c, "usb").unwrap_err(),
        "No destination named 'usb'. Run `cradle destination list` to see what's configured."
    );
}

#[test]
fn destinations_are_spoken_of() {
    assert_eq!(
        added_line("nas", "/r", true),
        "Destination 'nas' created and repository initialized."
    );
    assert_eq!(
        added_line("nas", "/r", false),
        "Destination 'nas' created — a repository already existed at /r, reusing it."
    );
    assert_eq!(
        connected_line("nas", "/r"),
        "Destination 'nas' connected to the existing repository at /r."
    );
    assert!(removed_line("nas", "/r", true).starts_with("Removed destination 'nas' and deleted"));
    assert!(removed_line("nas", "/r", false)
        .contains("`cradle destination connect --name nas --uri /r --password <password>`"));
}

#[test]
fn reading_everything_wins_over_reading_a_part() {
    assert_eq!(check_mode(true, Some(5)), CheckMode::Full);
    assert_eq!(check_mode(false, Some(5)), CheckMode::Sample { percent: 5 });
    assert_eq!(check_mode(false, None), CheckMode::Quick);
}

#[test]
fn an_archive_that_fails_says_why() {
    let category = |e: ArchiveError| archive_refusal("U", &e).category;
    assert_eq!(category(ArchiveError::NoVerifiedSnapshot), "no_verified_snapshot");
    assert_eq!(category(ArchiveError::SourceMissing("/w/U".to_string())), "source_missing");
    assert_eq!(category(ArchiveError::Locked(CradleError::Stalled)), "locked");
    assert_eq!(category(ArchiveError::Failed(CradleError::Stalled)), "failed");
    let gate = outcome(verify::Outcome::NeedsPassword).gate;
    assert_eq!(category(ArchiveError::NoLongerVerified(gate)), "needs_password");
    let gate = outcome(verify::Outcome::Invalid).gate;
    let r = archive_refusal("U", &ArchiveError::NoLongerVerified(gate));
    assert_eq!(r.category, "stale_verification");
    assert!(r.message.ends_with("Not archiving it:\none.\ntwo."));
    assert_eq!(
        archive_refusal("U", &ArchiveError::NoVerifiedSnapshot).message,
        "No verified snapshot for U yet — run `cradle backup --udid U` first. An unverified backup \
         is never treated as an archivable snapshot."
    );
}

#[test]
fn archives_are_spoken_of() {
    let summary = BackupSummary {
        snapshot_id: "abc".to_string(),
        total_bytes_processed: 2048,
        total_files_processed: 3,
        data_added: 1024,
    };
    assert_eq!(
        archived_line(&summary),
        "Archived: restic snapshot abc — 1.0 KB new data written (2.0 KB processed, 3 files)."
    );
    assert_eq!(archive_lines("nas", &vec![]), vec!["No snapshots in 'nas' yet."]);
    let s = ResticSnapshot {
        id: "abcdef".to_string(),
        short_id: "abc".to_string(),
        time: "t".to_string(),
        paths: vec!["/a".to_string(), "/b".to_string()],
    };
    assert_eq!(archive_lines("nas", &vec![s]), vec!["abc  t  /a, /b"]);
    assert_eq!(check_verdict("nas", &CheckSummary { num_errors: 0 }).unwrap(), "No errors found.");
    assert_eq!(
        check_verdict("nas", &CheckSummary { num_errors: 2 }).unwrap_err(),
        "restic check found 2 error(s) in 'nas'."
    );
}

#[test]
fn pruning_keeps_the_policy_and_a_preview_changes_nothing() {
    let mut c = catalog();
    let id = c.create_destination("nas", "local", "/r", "acc").unwrap();
    let policy = RetentionPolicy { keep_last: Some(2), ..RetentionPolicy::default() };
    let line = pruned(&mut c, id, &policy, &ForgetSummary { kept: 2, removed: 1 });
    assert_eq!(line, "Kept 2 snapshot(s), removed 1.");
    let kept = c.destination_by_name("nas").unwrap().retention_json.unwrap();
    assert_eq!(kept, policy.to_json());

    let entry = RetentionPreviewEntry { short_id: "aa".to_string(), time: "t".to_string() };
    let preview = RetentionPreview { kept: vec![entry.clone()], removed: vec![entry] };
    assert_eq!(
        preview_lines(&preview),
        vec![
            "Would remove 1 snapshot(s):",
            "  aa  t",
            "Would keep 1 snapshot(s).",
            "Run without --dry-run to actually apply this policy.",
        ]
    );
    let nothing = RetentionPreview { kept: vec![], removed: vec![] };
    assert_eq!(preview_lines(&nothing)[0], "Would remove: none.");
}

#[test]
fn a_restore_that_does_not_start_says_why() {
    let r = restore_refusal(RestoreObstacle::Pairing("m".to_string()));
    assert_eq!((r.category.as_str(), r.message.as_str()), ("pairing_invalid", "m"));
    assert_eq!(restore_refusal(RestoreObstacle::FindMyEnabled).category, "find_my_enabled");
    let r = restore_refusal(RestoreObstacle::OlderIos {
        target: "17".to_string(),
        backup: "18".to_string(),
    });
    assert_eq!(r.category, "ios_version_mismatch");
    assert!(r.message.starts_with("Target device is on iOS 17, but this backup is from iOS 18 — "));
    let r = restore_refusal(RestoreObstacle::LittleSpace {
        needed: 50_000_000_000,
        free: 40_000_000_000,
    });
    assert_eq!(
        r.message,
        "Not enough free space on the target device: this backup needs 50.0 GB, but only 40.0 GB is \
         free. Free up space on the device and try again."
    );
    assert_eq!(restore_refusal(RestoreObstacle::SpaceUnknown).category, "not_enough_space");
}

#[test]
fn a_restore_is_spoken_of() {
    let summary = RestoreSummary {
        path: "/s".to_string(),
        total_files: 3,
        files_restored: 2,
        total_bytes: 1024,
    };
    assert_eq!(
        fetched_line(&summary, "nas"),
        "Restored 2 file(s) (1.0 KB) from 'nas' into scratch."
    );
    let c = restore_config(true, true);
    assert!(!c.reboot && c.system_files && !c.restore_settings);
    let done = Outcome { target_udid: "T".to_string() };
    assert_eq!(restored_line(&done, true), "Restore complete on T. Device will reboot.");
    assert_eq!(restored_line(&done, false), "Restore complete on T.");
}

#[test]
fn an_empty_password_is_refused() {
    assert!(require_password("x", EMPTY_NOT_STORED).is_ok());
    assert_eq!(
        require_password("", EMPTY_NOT_STORED).unwrap_err(),
        "Password was empty — not storing it."
    );
    let given = decrypt_password(Some("a".to_string()), Some("b".to_string()), "U");
    assert_eq!(given.unwrap(), "a");
    assert_eq!(decrypt_password(None, Some("b".to_string()), "U").unwrap(), "b");
    assert!(decrypt_password(None, None, "U").unwrap_err().contains("--udid U`"));
}

#[test]
fn keys_are_given_in_hexadecimal() {
    assert_eq!(read_encryption_key("  00ffA0 \n").unwrap(), vec![0, 255, 160]);
    assert_eq!(read_encryption_key("").unwrap(), Vec::<u8>::new());
    assert_eq!(
        read_encryption_key("abc").unwrap_err(),
        "--encryption-key is not valid hex: Odd number of digits"
    );
    assert_eq!(
        read_encryption_key("zz").unwrap_err(),
        "--encryption-key is not valid hex: Invalid character 'z' at position 0"
    );
    assert!(read_encryption_key("é").is_err());
    assert_eq!(encryption_key(Ok(vec![1])).unwrap(), vec![1]);
    let bytes: Vec<u8> = (0..=255).collect();
    assert_eq!(read_encryption_key(&cradle::keychain::hex_text(&bytes)).unwrap(), bytes);
}

#[test]
fn decryption_stops_at_the_first_thing_that_is_wrong() {
    let e = run_decrypt(&Err("gone".to_string()), "pw", "zz", "f", Err("x".to_string()));
    assert_eq!(e.unwrap_err(), "could not read Manifest.plist: gone");
    assert!(decrypted_line("a", 32, "b").starts_with("Decrypted a (32 bytes) to b. Note: "));
}
