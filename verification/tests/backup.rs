//! Running a backup, trying again, and changing its encryption.
use cradle::backup::{
    backup_args, encryption_changed, plan_encryption, run, set_encryption,
    wait_for_host_io_retry, BackupError,
    RetryReason, RetryState, RetryStep, HOST_IO_RETRY_ATTEMPTS, LOCK_RETRY_ATTEMPTS,
    STALL_RETRY_ATTEMPTS,
};
use cradle::libimobiledevice::RunResult;
use cradle::precheck::MIN_FREE_MEMORY_BYTES;
use cradle::CradleError;

#[test]
fn a_full_backup_says_so() {
    assert_eq!(backup_args("U", "/w", false), vec!["-u", "U", "backup", "/w"]);
    assert_eq!(backup_args("U", "/w", true), vec!["-u", "U", "backup", "--full", "/w"]);
}

#[test]
fn a_failed_backup_keeps_what_it_moved() {
    let result = |outcome| RunResult { outcome, files_received: 3, bytes_transferred: 4 };
    let done = run(result(Ok(())), "U", "/w").unwrap();
    assert_eq!(done.backup_dir, "/w/U");
    assert_eq!((done.files_received, done.bytes_transferred), (3, 4));
    let lost = run(result(Err(CradleError::Stalled)), "U", "/w").unwrap_err();
    assert_eq!((lost.files_received, lost.bytes_transferred), (3, 4));
    assert_eq!(lost.message(), CradleError::Stalled.message());
    let early = BackupError::from(CradleError::DeviceLocked);
    assert_eq!((early.files_received, early.bytes_transferred), (0, 0));
}

fn attempts(failure: fn() -> CradleError) -> (u32, Option<RetryReason>) {
    let mut state = RetryState::new();
    let mut n = 1;
    let mut why = None;
    while let RetryStep::Retry { reason, attempt, .. } = state.on_failure(&failure()) {
        assert_eq!(attempt, n);
        why = Some(reason);
        n += 1;
    }
    (n, why)
}

#[test]
fn each_kind_of_failure_is_retried_so_often() {
    assert_eq!(
        attempts(|| CradleError::DeviceLocked),
        (LOCK_RETRY_ATTEMPTS + 1, Some(RetryReason::DeviceLocked))
    );
    assert_eq!(
        attempts(|| CradleError::HostIoError),
        (HOST_IO_RETRY_ATTEMPTS + 1, Some(RetryReason::HostIo))
    );
    assert_eq!(
        attempts(|| CradleError::Stalled),
        (STALL_RETRY_ATTEMPTS + 1, Some(RetryReason::Stalled))
    );
    assert_eq!(attempts(|| CradleError::WrongBackupPassword), (1, None));
    assert_eq!((LOCK_RETRY_ATTEMPTS, HOST_IO_RETRY_ATTEMPTS, STALL_RETRY_ATTEMPTS), (12, 3, 3));
}

#[test]
fn a_retry_waits_for_memory_but_not_for_ever() {
    let little = Some(MIN_FREE_MEMORY_BYTES - 1);
    assert_eq!(wait_for_host_io_retry(0, little), Some(10));
    assert_eq!(wait_for_host_io_retry(80, little), Some(10));
    assert_eq!(wait_for_host_io_retry(90, little), None);
    assert_eq!(wait_for_host_io_retry(0, Some(MIN_FREE_MEMORY_BYTES)), None);
    assert_eq!(wait_for_host_io_retry(0, None), None);
}

#[test]
fn passwords_go_by_the_environment() {
    let on = plan_encryption("U", "/w", None, Some("new")).unwrap();
    assert_eq!(on.args, vec!["-u", "U", "encryption", "on", "/w"]);
    assert_eq!(on.env, vec![("BACKUP_PASSWORD_NEW".to_string(), "new".to_string())]);
    let off = plan_encryption("U", "/w", Some("old"), None).unwrap();
    assert_eq!(off.args, vec!["-u", "U", "encryption", "off", "/w"]);
    let change = plan_encryption("U", "/w", Some("old"), Some("new")).unwrap();
    assert_eq!(change.args, vec!["-u", "U", "changepw", "/w"]);
    let other = plan_encryption("U", "/w", Some("abc"), Some("xyz")).unwrap();
    assert_eq!(other.args, change.args);
    assert_eq!(
        change.env,
        vec![
            ("BACKUP_PASSWORD".to_string(), "old".to_string()),
            ("BACKUP_PASSWORD_NEW".to_string(), "new".to_string())
        ]
    );
    assert_eq!(
        plan_encryption("U", "/w", None, None).unwrap_err().message(),
        "no password change requested"
    );
}

#[test]
fn a_change_that_the_device_ignored_is_an_error() {
    let ok = || RunResult { outcome: Ok(()), files_received: 0, bytes_transferred: 0 };
    assert!(set_encryption(ok(), true, true).is_ok());
    let words = set_encryption(ok(), false, true).unwrap_err().message();
    assert!(words.contains("backup encryption is still off"), "{words}");
    let words = set_encryption(ok(), true, false).unwrap_err().message();
    assert!(words.contains("backup encryption is still on"), "{words}");
    let failed = RunResult {
        outcome: Err(CradleError::DeviceLocked),
        files_received: 0,
        bytes_transferred: 0,
    };
    assert!(matches!(set_encryption(failed, true, true), Err(CradleError::DeviceLocked)));
    assert!(encryption_changed(ok(), true, Some("pw")).is_ok());
    assert!(encryption_changed(ok(), false, Some("pw")).is_err());
    assert!(encryption_changed(ok(), false, None).is_ok());
    assert!(encryption_changed(ok(), true, None).is_err());
}
