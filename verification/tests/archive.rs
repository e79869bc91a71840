//! What is handed to restic, and what is made of its answers.
use cradle::archive::{
    backup, backup_args, check, collect_output, ensure_initialized, error_hint, error_lines,
    forget_and_prune, forget_args, is_filled, on_backup_message, on_check_line, on_restore_message,
    parse_error, parse_preview_entries, plan_restore, preview_retention, require_policy_args,
    restic_args, restore, start_failed, streamed, ArchiveProgress, BackupMessage, BackupSummary, CheckMode,
    ExitReport, ForgetGroup, ResticError, ResticSnapshot, RestoreMessage, RestoreSummary,
    RetentionPolicy, StartFailure,
};
use cradle::CradleError;

#[test]
fn quick_check_adds_no_extra_flags() {
    assert!(CheckMode::Quick.extra_args().is_empty());
}

#[test]
fn full_check_reads_all_data() {
    assert_eq!(CheckMode::Full.extra_args(), vec!["--read-data".to_string()]);
}

#[test]
fn sample_check_uses_the_requested_percentage() {
    assert_eq!(
        CheckMode::Sample { percent: 10 }.extra_args(),
        vec!["--read-data-subset=10%".to_string()]
    );
}

#[test]
fn sample_check_clamps_an_out_of_range_percentage() {
    assert_eq!(
        CheckMode::Sample { percent: 0 }.extra_args(),
        vec!["--read-data-subset=1%".to_string()]
    );
    assert_eq!(
        CheckMode::Sample { percent: 255 }.extra_args(),
        vec!["--read-data-subset=100%".to_string()]
    );
}

fn policy(keep_last: Option<u32>, keep_daily: Option<u32>) -> RetentionPolicy {
    RetentionPolicy { keep_last, keep_daily, keep_weekly: None, keep_monthly: None }
}

#[test]
fn the_other_modes_describe_themselves() {
    assert_eq!(
        CheckMode::Quick.description(),
        "checking repository structure (not pack contents — use --full or --sample for that)"
    );
    assert_eq!(
        CheckMode::Full.description(),
        "reading and verifying every byte in the repository — this can take as long as the original archive"
    );
    assert_eq!(
        CheckMode::Sample { percent: 3 }.description(),
        "reading and verifying a random sample of the repository"
    );
    assert_eq!(CheckMode::Full.check_args(), vec!["check".to_string(), "--read-data".to_string()]);
}

#[test]
fn restic_is_told_the_repository_first() {
    assert_eq!(
        restic_args("/repo", &vec!["init".to_string()]),
        vec!["--repo", "/repo", "--json", "init"]
    );
    assert_eq!(backup_args("/w/UDID"), vec!["backup", "/w/UDID"]);
}

#[test]
fn known_exit_codes_are_explained() {
    for (code, hint) in [
        (10, "the repository doesn't exist at this URI yet"),
        (11, "locked by another process"),
        (12, "wrong repository password"),
    ] {
        let e = ResticError { code: Some(code), message: "m".to_string() };
        let words = e.into_error().message();
        assert!(words.starts_with("restic error: m — "), "{words}");
        assert!(words.contains(hint), "{words}");
    }
    let e = ResticError { code: Some(1), message: "m".to_string() };
    assert_eq!(e.into_error().message(), "restic error: m");
    assert!(error_hint(13).is_none());
}

#[test]
fn a_failed_start_names_what_failed() {
    let gone = || CradleError::Other("gone".to_string());
    assert_eq!(
        start_failed(StartFailure::Password(gone())).message,
        "could not read repository password from Keychain: gone"
    );
    assert_eq!(start_failed(StartFailure::Missing(gone())).message, "gone (try `brew install restic`)");
    assert_eq!(
        start_failed(StartFailure::Spawn("no".to_string())).message,
        "could not start restic: no"
    );
    assert_eq!(
        start_failed(StartFailure::Wait("no".to_string())).message,
        "restic process error: no"
    );
    assert_eq!(start_failed(StartFailure::Wait("no".to_string())).code, None);
}

#[test]
fn the_last_report_on_stderr_wins() {
    let text = "noise\n {\"code\":1,\"message\":\"first\"}\n{\"code\":12,\"message\":\"last\"}\ntail\n";
    let lines = error_lines(text);
    assert_eq!(lines[0], "noise");
    assert_eq!(lines[1], "{\"code\":1,\"message\":\"first\"}");
    assert_eq!(lines.len(), 4);
    let reports: Vec<Option<ExitReport>> = lines
        .iter()
        .map(|l| {
            let v: Option<serde_json::Value> = serde_json::from_str(l).ok();
            v.map(|v| ExitReport {
                code: v["code"].as_i64().unwrap(),
                message: v["message"].as_str().unwrap().to_string(),
            })
        })
        .collect();
    let e = parse_error(text, &reports, Some(1));
    assert_eq!(e.code, Some(12));
    assert_eq!(e.message, "last");
}

#[test]
fn an_exit_without_a_report_is_told_by_its_output_or_its_status() {
    let e = parse_error("  boom  ", &vec![None], Some(3));
    assert_eq!(e.code, Some(3));
    assert_eq!(e.message, "boom");
    let e = parse_error("  \n ", &error_lines("  \n ").iter().map(|_| None).collect(), Some(3));
    assert_eq!(e.message, "restic exited with status Some(3) and no error output");
    assert!(streamed(true, "boom", &vec![None], Some(0)).is_ok());
    let e = streamed(false, "  boom  ", &vec![None], Some(3)).unwrap_err();
    assert_eq!((e.code, e.message.as_str()), (Some(3), "boom"));
    let e = parse_error("", &vec![], None);
    assert_eq!(e.code, None);
    assert_eq!(e.message, "restic exited with status None and no error output");
}

#[test]
fn a_repository_that_exists_already_is_reused() {
    let failed = |m: &str| Err(ResticError { code: None, message: m.to_string() });
    assert!(ensure_initialized(Ok(())).unwrap());
    assert!(!ensure_initialized(failed("config file already exists")).unwrap());
    let e = ensure_initialized(failed("no route")).unwrap_err();
    assert_eq!(e.message(), "restic error: no route");
}

#[test]
fn an_archive_needs_a_summary() {
    let mut summary = None;
    let told = on_backup_message(
        &mut summary,
        BackupMessage::Status { total_bytes: 10, bytes_done: 4, files_done: Some(2) },
    );
    assert_eq!(told.len(), 2);
    assert!(matches!(told[0], ArchiveProgress::Bytes { done: 4, total: 10 }));
    assert!(summary.is_none());
    assert_eq!(
        backup(Ok(()), None).unwrap_err().message(),
        "restic backup finished without a summary message"
    );
    on_backup_message(
        &mut summary,
        BackupMessage::Summary(BackupSummary {
            snapshot_id: "abc".to_string(),
            total_bytes_processed: 9,
            total_files_processed: 3,
            data_added: 1,
        }),
    );
    assert!(on_backup_message(&mut summary, BackupMessage::Unknown).is_empty());
    let done = backup(Ok(()), summary).unwrap();
    assert_eq!(done.snapshot_id, "abc");
    assert_eq!(done.data_added, 1);
}

fn snapshot(id: &str, short_id: &str, paths: &[&str]) -> ResticSnapshot {
    ResticSnapshot {
        id: id.to_string(),
        short_id: short_id.to_string(),
        time: "2026-01-01T00:00:00Z".to_string(),
        paths: paths.iter().map(|p| p.to_string()).collect(),
    }
}

#[test]
fn a_snapshot_is_restored_below_the_scratch_directory() {
    let all = vec![snapshot("aaaa1", "aaaa", &["/w/A"]), snapshot("bbbb1", "bbbb", &["//w/B", "/w/C"])];
    let plan = plan_restore(&all, "bbbb", "/scratch").unwrap();
    assert_eq!(plan.args, vec!["restore", "bbbb1", "--target", "/scratch"]);
    assert_eq!(plan.path, "/scratch/w/B");
    assert_eq!(plan_restore(&all, "aaaa1", "/scratch").unwrap().path, "/scratch/w/A");
    assert_eq!(
        plan_restore(&all, "cccc", "/scratch").unwrap_err().message(),
        "no snapshot 'cccc' in this repository"
    );
    assert_eq!(
        plan_restore(&vec![snapshot("d1", "d", &[])], "d", "/scratch").unwrap_err().message(),
        "snapshot has no recorded path"
    );

    let mut summary = None;
    on_restore_message(
        &mut summary,
        RestoreMessage::Summary { total_files: 5, files_restored: 4, total_bytes: 3 },
    );
    let told = on_restore_message(
        &mut summary,
        RestoreMessage::Status { total_bytes: 3, bytes_restored: 1, files_restored: 2 },
    );
    assert_eq!(told.len(), 2);
    let done = restore(plan, Ok(()), summary).unwrap();
    assert_eq!(done.path, "/scratch/w/B");
    assert_eq!((done.total_files, done.files_restored, done.total_bytes), (5, 4, 3));

    let plan = plan_restore(&all, "aaaa", "/scratch").unwrap();
    assert_eq!(
        restore(plan, Ok(()), None).unwrap_err().message(),
        "restic restore finished without a summary message"
    );
    assert_eq!(RestoreSummary::default().path, "");
}

#[test]
fn a_policy_becomes_flags_and_json() {
    let p = policy(Some(3), None);
    assert_eq!(p.to_args(), vec!["--keep-last", "3"]);
    assert_eq!(
        p.to_json(),
        "{\"keep_daily\":null,\"keep_last\":3,\"keep_monthly\":null,\"keep_weekly\":null}"
    );
    assert_eq!(
        forget_args(&policy(Some(3), Some(7)), true).unwrap(),
        vec!["forget", "--dry-run", "--keep-last", "3", "--keep-daily", "7"]
    );
    assert_eq!(
        forget_args(&policy(None, Some(7)), false).unwrap(),
        vec!["forget", "--prune", "--keep-daily", "7"]
    );
    assert!(require_policy_args(&RetentionPolicy::default())
        .unwrap_err()
        .message()
        .contains("no retention policy given"));
}

#[test]
fn a_preview_reads_what_it_can_of_each_snapshot() {
    let groups = vec![
        ForgetGroup {
            keep: Some(vec!["{\"short_id\":\"aa\",\"time\":\"t1\"}".to_string()]),
            remove: None,
        },
        ForgetGroup {
            keep: None,
            remove: Some(vec![
                "{\"short_id\":7}".to_string(),
                "[1,2]".to_string(),
                "{\"time\":\"t2\"}".to_string(),
            ]),
        },
    ];
    let p = preview_retention(&groups);
    assert_eq!(p.kept.len(), 1);
    assert_eq!((p.kept[0].short_id.as_str(), p.kept[0].time.as_str()), ("aa", "t1"));
    assert_eq!(p.removed.len(), 3);
    assert_eq!((p.removed[0].short_id.as_str(), p.removed[0].time.as_str()), ("?", "?"));
    assert_eq!((p.removed[2].short_id.as_str(), p.removed[2].time.as_str()), ("?", "t2"));
    let s = forget_and_prune(&groups);
    assert_eq!((s.kept, s.removed), (1, 3));
    assert!(parse_preview_entries(&None).is_empty());
}

#[test]
fn a_check_reads_the_last_summary() {
    let mut summary = None;
    on_check_line(&mut summary, "{\"message_type\":\"status\",\"num_errors\":9}");
    assert!(summary.is_none());
    on_check_line(&mut summary, "{\"message_type\":\"summary\",\"num_errors\":2}");
    on_check_line(&mut summary, "{\"message_type\":\"summary\",\"num_errors\":-1}");
    on_check_line(&mut summary, "not json");
    assert_eq!(summary.as_ref().unwrap().num_errors, 2);
    on_check_line(&mut summary, "{\"message_type\":\"summary\"}");
    assert_eq!(check(Ok(()), summary).unwrap().num_errors, 0);
}

#[test]
fn output_is_collected_line_by_line() {
    assert_eq!(collect_output(&vec![" a".to_string(), "b".to_string()]), "a\nb");
    assert!(is_filled(" x "));
    assert!(!is_filled(" \t "));
}
