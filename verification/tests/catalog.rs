//! What the catalog keeps of devices, runs, snapshots and archives.
use cradle::catalog::{ArchiveState, Catalog, DeviceRecord, LastNumbers, RunKind, RunStatus};

const NOW: i64 = 1_700_000_000;

fn device(udid: &str) -> DeviceRecord {
    DeviceRecord {
        udid: udid.to_string(),
        name: "Test Device".to_string(),
        product_type: "iPhone18,3".to_string(),
        ios_version: "26.6.1".to_string(),
        encrypted: true,
    }
}

#[test]
fn run_lifecycle_round_trips() {
    let mut cat = Catalog::new();
    cat.upsert_device(&device("udid-1"), NOW);

    let run_id = cat.start_run("udid-1", RunKind::Backup, NOW).unwrap();
    let latest = cat.latest_run("udid-1").unwrap();
    assert_eq!(latest.status, "running");
    assert_eq!(latest.ended_at, None);

    cat.finish_run(run_id, RunStatus::Succeeded, 12_345, 42, None, NOW + 1);
    let latest = cat.latest_run("udid-1").unwrap();
    assert_eq!(latest.status, "succeeded");
    assert_eq!(latest.bytes, Some(12_345));
    assert_eq!(latest.files, Some(42));
    assert!(latest.ended_at.is_some());
}

#[test]
fn failed_run_keeps_its_error() {
    let mut cat = Catalog::new();
    cat.upsert_device(&device("udid-1"), NOW);
    let run_id = cat.start_run("udid-1", RunKind::Backup, NOW).unwrap();

    cat.finish_run(run_id, RunStatus::Failed, 0, 0, Some("device locked"), NOW);

    let latest = cat.latest_run("udid-1").unwrap();
    assert_eq!(latest.status, "failed");
    assert_eq!(latest.error.as_deref(), Some("device locked"));
}

#[test]
fn fail_abandoned_runs_closes_out_a_stuck_running_row() {
    let mut cat = Catalog::new();
    cat.upsert_device(&device("udid-1"), NOW);
    let run_id = cat.start_run("udid-1", RunKind::Backup, NOW).unwrap();

    let changed = cat.fail_abandoned_runs("udid-1", NOW);
    assert_eq!(changed, 1);

    let latest = cat.latest_run("udid-1").unwrap();
    assert_eq!(latest.id, run_id);
    assert_eq!(latest.status, "failed");
    assert!(latest.error.as_deref().unwrap().contains("abandoned"));
}

#[test]
fn fail_abandoned_runs_leaves_a_completed_run_alone() {
    let mut cat = Catalog::new();
    cat.upsert_device(&device("udid-1"), NOW);
    let run_id = cat.start_run("udid-1", RunKind::Backup, NOW).unwrap();
    cat.finish_run(run_id, RunStatus::Succeeded, 100, 5, None, NOW);

    let changed = cat.fail_abandoned_runs("udid-1", NOW);
    assert_eq!(changed, 0);

    let latest = cat.latest_run("udid-1").unwrap();
    assert_eq!(latest.status, "succeeded");
}

#[test]
fn finish_run_with_snapshot_updates_both_in_one_call() {
    let mut cat = Catalog::new();
    cat.upsert_device(&device("udid-1"), NOW);
    let run_id = cat.start_run("udid-1", RunKind::Backup, NOW).unwrap();

    let snap_id = cat
        .finish_run_with_snapshot(run_id, 500, 10, "udid-1", 1_000_000, "26.6.1", true, NOW)
        .unwrap();

    let run = cat.latest_run("udid-1").unwrap();
    assert_eq!(run.status, "succeeded");
    assert_eq!(run.bytes, Some(500));
    assert_eq!(run.files, Some(10));

    let snapshots = cat.list_snapshots("udid-1");
    let snap = snapshots.iter().find(|s| s.id == snap_id).unwrap();
    assert_eq!(snap.run_id, run_id);
    assert!(snap.verified_at.is_some());
}

#[test]
fn verified_snapshot_records_verified_at() {
    let mut cat = Catalog::new();
    cat.upsert_device(&device("udid-1"), NOW);
    let run_id = cat.start_run("udid-1", RunKind::Backup, NOW).unwrap();

    let snap_id = cat
        .record_snapshot("udid-1", run_id, 1_000_000, "26.6.1", true, NOW)
        .unwrap();
    let snapshots = cat.list_snapshots("udid-1");
    let snap = snapshots.iter().find(|s| s.id == snap_id).unwrap();
    assert!(snap.verified_at.is_some());
}

#[test]
fn unverified_snapshot_leaves_verified_at_null() {
    let mut cat = Catalog::new();
    cat.upsert_device(&device("udid-1"), NOW);
    let run_id = cat.start_run("udid-1", RunKind::Backup, NOW).unwrap();

    cat.record_snapshot("udid-1", run_id, 1_000_000, "26.6.1", false, NOW)
        .unwrap();
    let snapshots = cat.list_snapshots("udid-1");
    assert_eq!(snapshots[0].verified_at, None);
}

#[test]
fn upsert_device_updates_rather_than_duplicates() {
    let mut cat = Catalog::new();
    cat.upsert_device(&device("udid-1"), NOW);
    let mut updated = device("udid-1");
    updated.name = "Renamed".to_string();
    cat.upsert_device(&updated, NOW);

    let count = cat.list_devices().len();
    assert_eq!(count, 1);
    assert_eq!(cat.list_devices()[0].record.name, "Renamed");
}

#[test]
fn list_devices_returns_every_device_seen() {
    let mut cat = Catalog::new();
    cat.upsert_device(&device("udid-1"), NOW);
    cat.upsert_device(&device("udid-2"), NOW);

    let udids: Vec<String> = cat.list_devices().into_iter().map(|d| d.record.udid).collect();
    assert_eq!(udids.len(), 2);
    assert!(udids.contains(&"udid-1".to_string()));
    assert!(udids.contains(&"udid-2".to_string()));
}

#[test]
fn delete_destination_removes_it() {
    let mut cat = Catalog::new();
    let id = cat.create_destination("nas", "nas", "/tmp/repo", "cradle-destination-nas").unwrap();
    assert!(cat.destination_by_name("nas").is_some());

    cat.delete_destination(id);

    assert!(cat.destination_by_name("nas").is_none());
    assert!(cat.list_destinations().is_empty());
}

#[test]
fn delete_destination_with_archived_snapshots_still_succeeds() {
    let mut cat = Catalog::new();
    cat.upsert_device(&device("udid-1"), NOW);
    let run_id = cat.start_run("udid-1", RunKind::Backup, NOW).unwrap();
    let snap_id = cat
        .record_snapshot("udid-1", run_id, 1_000_000, "26.6.1", true, NOW)
        .unwrap();
    let dest_id = cat.create_destination("nas", "nas", "/tmp/repo", "cradle-destination-nas").unwrap();
    let archive_id = cat.start_archive(snap_id, dest_id, NOW).unwrap();
    cat.finish_archive(archive_id, ArchiveState::Succeeded, Some("abc123"), None, NOW);

    cat.delete_destination(dest_id);

    assert!(cat.destination_by_name("nas").is_none());
    assert!(cat.list_archives_for_snapshot(snap_id).is_empty());
}

#[test]
fn lists_are_newest_first_and_ties_go_by_number() {
    let mut cat = Catalog::new();
    cat.upsert_device(&device("a"), NOW);
    cat.upsert_device(&device("b"), NOW + 5);
    assert_eq!(cat.list_devices()[0].record.udid, "b");
    let one = cat.start_run("a", RunKind::Backup, NOW).unwrap();
    let two = cat.start_run("a", RunKind::Restore, NOW).unwrap();
    let early = cat.start_run("a", RunKind::Backup, NOW - 1).unwrap();
    cat.start_run("b", RunKind::Backup, NOW).unwrap();
    let ids: Vec<i64> = cat.list_runs("a").iter().map(|r| r.id).collect();
    assert_eq!(ids, vec![two, one, early]);
    assert_eq!(cat.latest_run("a").unwrap().kind, "restore");
    assert!(cat.latest_run("c").is_none());
}

#[test]
fn what_is_not_known_cannot_be_referred_to() {
    let mut cat = Catalog::new();
    let e = cat.start_run("nobody", RunKind::Backup, NOW).unwrap_err();
    assert!(e.message().contains("FOREIGN KEY constraint failed"));
    cat.upsert_device(&device("a"), NOW);
    assert!(cat.record_snapshot("a", 99, 1, "1", true, NOW).is_err());
    assert!(cat.start_archive(1, 1, NOW).is_err());
    assert!(cat.finish_run_with_snapshot(9, 1, 1, "a", 1, "1", true, NOW).is_err());
    cat.create_destination("nas", "local", "/r", "acc").unwrap();
    let e = cat.create_destination("nas", "local", "/r", "acc").unwrap_err();
    assert!(e.message().contains("UNIQUE constraint failed: destinations.name"));
}

#[test]
fn verification_is_recorded_once() {
    let mut cat = Catalog::new();
    cat.upsert_device(&device("a"), NOW);
    let run = cat.start_run("a", RunKind::Backup, NOW).unwrap();
    let snap = cat.record_snapshot("a", run, 5, "1", false, NOW).unwrap();
    assert!(cat.latest_verified_snapshot("a").is_none());
    assert_eq!(cat.latest_snapshot("a").unwrap().id, snap);
    cat.mark_snapshot_verified(snap, NOW + 1);
    cat.mark_snapshot_verified(snap, NOW + 2);
    assert_eq!(cat.latest_verified_snapshot("a").unwrap().verified_at, Some(NOW + 1));
}

#[test]
fn numbers_are_never_given_twice() {
    let mut cat = Catalog::new();
    let one = cat.create_destination("a", "local", "/a", "x").unwrap();
    cat.delete_destination(one);
    let two = cat.create_destination("a", "local", "/a", "x").unwrap();
    assert_eq!((one, two), (1, 2));
    cat.set_destination_retention(two, "{}");
    let d = cat.destination_by_name("a").unwrap();
    assert_eq!(d.retention_json.as_deref(), Some("{}"));
}

#[test]
fn destinations_are_listed_by_name() {
    let mut cat = Catalog::new();
    for name in ["nas", "b2", "usb"] {
        cat.create_destination(name, "local", "/r", "acc").unwrap();
    }
    let names: Vec<String> = cat.list_destinations().into_iter().map(|d| d.name).collect();
    assert_eq!(names, vec!["b2", "nas", "usb"]);
}

#[test]
fn abandoned_archives_are_closed() {
    let mut cat = Catalog::new();
    cat.upsert_device(&device("a"), NOW);
    let run = cat.start_run("a", RunKind::Backup, NOW).unwrap();
    let snap = cat.record_snapshot("a", run, 5, "1", true, NOW).unwrap();
    let dest = cat.create_destination("nas", "local", "/r", "acc").unwrap();
    cat.start_archive(snap, dest, NOW).unwrap();
    assert_eq!(cat.fail_abandoned_archives(snap), 1);
    assert_eq!(cat.fail_abandoned_archives(snap), 0);
    let a = &cat.list_archives_for_snapshot(snap)[0];
    assert_eq!(a.state, "failed");
    assert!(a.error.as_deref().unwrap().contains("abandoned"));
}

#[test]
fn a_row_raises_the_last_number() {
    let mut cat = Catalog::new();
    cat.upsert_device(&device("a"), NOW);
    let run = cat.start_run("a", RunKind::Backup, NOW).unwrap();
    cat.record_snapshot("a", run, 5, "1", true, NOW).unwrap();
    let low = LastNumbers { run: 0, snapshot: 0, destination: 7, archive: 0 };
    let mut again = Catalog::load(
        cat.device_rows().clone(),
        cat.run_rows().clone(),
        cat.snapshot_rows().clone(),
        vec![],
        vec![],
        low,
    )
    .unwrap();
    let next = again.start_run("a", RunKind::Restore, NOW).unwrap();
    assert_eq!(next, 2);
    assert_eq!(again.record_snapshot("a", next, 6, "1", true, NOW).unwrap(), 2);

    let mut backwards = again.run_rows().clone();
    backwards.reverse();
    let low = LastNumbers { run: 0, snapshot: 0, destination: 0, archive: 0 };
    assert!(Catalog::load(vec![], backwards, vec![], vec![], vec![], low).is_none());
}

#[test]
fn a_catalog_is_loaded_as_it_was_saved() {
    let mut cat = Catalog::new();
    cat.upsert_device(&device("a"), NOW);
    let run = cat.start_run("a", RunKind::Backup, NOW).unwrap();
    cat.record_snapshot("a", run, 5, "1", true, NOW).unwrap();
    let numbers = || LastNumbers { run: 1, snapshot: 1, destination: 0, archive: 0 };
    let again = Catalog::load(
        cat.device_rows().clone(),
        cat.run_rows().clone(),
        cat.snapshot_rows().clone(),
        cat.destination_rows().clone(),
        cat.archive_rows().clone(),
        numbers(),
    )
    .unwrap();
    assert_eq!(again.list_runs("a").len(), 1);
    assert_eq!(again.latest_verified_snapshot("a").unwrap().size, 5);

    let orphan = Catalog::load(
        vec![],
        cat.run_rows().clone(),
        vec![],
        vec![],
        vec![],
        numbers(),
    )
    .unwrap();
    assert_eq!(orphan.list_runs("a").len(), 1);
    let mut twice = cat.run_rows().clone();
    twice.push(twice[0].clone());
    assert!(Catalog::load(vec![], twice, vec![], vec![], vec![], numbers()).is_none());
    assert_eq!(Catalog::default_path(Some("/data")).unwrap(), "/data/Cradle/catalog.db");
    assert!(Catalog::default_path(None).is_err());
}
