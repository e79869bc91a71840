//! Backing up a device: the arguments of the transfer, what is tried again
//! and how often, and turning backup encryption on and off.
use vstd::prelude::*;

use crate::error::{CradleError, ErrorView};
use crate::libimobiledevice::RunResult;
use crate::paths::{join, joined};
use crate::precheck::MIN_FREE_MEMORY_BYTES;
use crate::text::{texts, texts_push};

verus! {

broadcast use texts_push;

// --- one attempt -----------------------------------------------------------------------

/// What came of a backup that succeeded.
#[derive(Debug, Clone)]
pub struct Outcome {
    pub udid: String,
    pub backup_dir: String,
    /// How many files the device sent.
    pub files_received: u64,
    /// How many bytes moved.
    pub bytes_transferred: u64,
}

/// A backup that failed, and how far it got.
#[derive(Debug)]
pub struct BackupError {
    pub source: CradleError,
    pub bytes_transferred: u64,
    pub files_received: u64,
}

impl BackupError {
    /// The words this failure is shown with.
    pub fn message(&self) -> (words: String)
        ensures
            words@ == self.source@.text(),
    {
        self.source.message()
    }
}

/// A failure from before the transfer: nothing moved.
pub open spec fn unmoved(source: CradleError) -> BackupError {
    BackupError { source, bytes_transferred: 0, files_received: 0 }
}

impl From<CradleError> for BackupError {
    fn from(source: CradleError) -> (e: BackupError) {
        BackupError { source, bytes_transferred: 0, files_received: 0 }
    }
}

impl vstd::std_specs::convert::FromSpecImpl<CradleError> for BackupError {
    open spec fn obeys_from_spec() -> bool {
        true
    }

    open spec fn from_spec(source: CradleError) -> BackupError {
        unmoved(source)
    }
}

/// The arguments that make `idevicebackup2` back a device up.
pub fn backup_args(udid: &str, dir: &str, force_full: bool) -> (args: Vec<String>)
    ensures
        texts(args@) == (if force_full {
            seq!["-u"@, udid@, "backup"@, "--full"@, dir@]
        } else {
            seq!["-u"@, udid@, "backup"@, dir@]
        }),
{
    let mut args: Vec<String> = vec!["-u".to_owned(), udid.to_owned(), "backup".to_owned()];
    if force_full {
        args.push("--full".to_owned());
    }
    args.push(dir.to_owned());
    assert(texts(args@) =~= (if force_full {
        seq!["-u"@, udid@, "backup"@, "--full"@, dir@]
    } else {
        seq!["-u"@, udid@, "backup"@, dir@]
    }));
    args
}

/// What came of one attempt: a failure keeps what had moved by then.
pub fn run(result: RunResult, udid: &str, working_root: &str) -> (r: Result<Outcome, BackupError>)
    ensures
        match (result.outcome, r) {
            (Ok(()), Ok(o)) => {
                &&& o.udid@ == udid@
                &&& o.backup_dir@ == joined(working_root@, udid@)
                &&& o.files_received == result.files_received
                &&& o.bytes_transferred == result.bytes_transferred
            },
            (Err(e), Err(x)) => {
                &&& x.source@ == e@
                &&& x.files_received == result.files_received
                &&& x.bytes_transferred == result.bytes_transferred
            },
            _ => false,
        },
{
    match result.outcome {
        Ok(()) => Ok(
            Outcome {
                udid: udid.to_owned(),
                backup_dir: join(working_root, udid),
                files_received: result.files_received,
                bytes_transferred: result.bytes_transferred,
            },
        ),
        Err(source) => Err(
            BackupError {
                source,
                bytes_transferred: result.bytes_transferred,
                files_received: result.files_received,
            },
        ),
    }
}

// --- trying again ------------------------------------------------------------------------

/// How often a backup is tried again that the device locks on.
pub const LOCK_RETRY_ATTEMPTS: u32 = 12;

/// How many seconds lie between those tries.
pub const LOCK_RETRY_DELAY: u64 = 10;

/// How often a backup is tried again on which the Mac fails.
pub const HOST_IO_RETRY_ATTEMPTS: u32 = 3;

/// How many seconds lie between those tries at least.
pub const HOST_IO_RETRY_DELAY: u64 = 30;

/// How often a backup is tried again that goes silent.
pub const STALL_RETRY_ATTEMPTS: u32 = 3;

/// How many seconds lie between those tries.
pub const STALL_RETRY_DELAY: u64 = 30;

/// How many seconds more are spent waiting for memory at most.
pub const HOST_IO_MAX_EXTRA_WAIT_SECS: u64 = 90;

/// How many seconds lie between two looks at the memory.
pub const HOST_IO_POLL_SECS: u64 = 10;

/// Why a backup is tried again.
#[derive(Debug, Clone, Copy, PartialEq, Eq, Structural)]
pub enum RetryReason {
    /// The device needs to be unlocked.
    DeviceLocked,
    /// The Mac failed to read or write a file.
    HostIo,
    /// The device went silent.
    Stalled,
}

/// The number that the next try again has, for each reason there is to try again.
#[derive(Debug, Clone, Copy, PartialEq, Eq, Structural)]
pub struct RetryState {
    pub lock_attempt: u32,
    pub host_io_attempt: u32,
    pub stall_attempt: u32,
}

/// What to do about a failed try.
#[derive(Debug, Clone, Copy, PartialEq, Eq, Structural)]
pub enum RetryStep {
    /// Report the failure.
    GiveUp,
    /// Wait and try again: for the `attempt`th time of `max` for this reason.
    Retry { reason: RetryReason, attempt: u32, max: u32, delay_secs: u64 },
}

impl RetryState {
    /// Before the first try.
    pub open spec fn first() -> RetryState {
        RetryState { lock_attempt: 1, host_io_attempt: 1, stall_attempt: 1 }
    }

    /// Before the first try.
    pub fn new() -> (s: RetryState)
        ensures
            s == RetryState::first(),
    {
        RetryState { lock_attempt: 1, host_io_attempt: 1, stall_attempt: 1 }
    }

    /// What a failure leads to, and the state it leaves.
    pub open spec fn after(self, failure: ErrorView) -> (RetryStep, RetryState) {
        match failure {
            ErrorView::DeviceLocked => if self.lock_attempt <= LOCK_RETRY_ATTEMPTS {
                (
                    RetryStep::Retry {
                        reason: RetryReason::DeviceLocked,
                        attempt: self.lock_attempt,
                        max: LOCK_RETRY_ATTEMPTS,
                        delay_secs: LOCK_RETRY_DELAY,
                    },
                    RetryState { lock_attempt: (self.lock_attempt + 1) as u32, ..self },
                )
            } else {
                (RetryStep::GiveUp, self)
            },
            ErrorView::HostIoError => if self.host_io_attempt <= HOST_IO_RETRY_ATTEMPTS {
                (
                    RetryStep::Retry {
                        reason: RetryReason::HostIo,
                        attempt: self.host_io_attempt,
                        max: HOST_IO_RETRY_ATTEMPTS,
                        delay_secs: HOST_IO_RETRY_DELAY,
                    },
                    RetryState { host_io_attempt: (self.host_io_attempt + 1) as u32, ..self },
                )
            } else {
                (RetryStep::GiveUp, self)
            },
            ErrorView::Stalled => if self.stall_attempt <= STALL_RETRY_ATTEMPTS {
                (
                    RetryStep::Retry {
                        reason: RetryReason::Stalled,
                        attempt: self.stall_attempt,
                        max: STALL_RETRY_ATTEMPTS,
                        delay_secs: STALL_RETRY_DELAY,
                    },
                    RetryState { stall_attempt: (self.stall_attempt + 1) as u32, ..self },
                )
            } else {
                (RetryStep::GiveUp, self)
            },
            _ => (RetryStep::GiveUp, self),
        }
    }

    /// Takes in that a try failed, and says what to do about it.
    pub fn on_failure(&mut self, failure: &CradleError) -> (step: RetryStep)
        ensures
            (step, *final(self)) == old(self).after(failure@),
    {
        match failure {
            CradleError::DeviceLocked => {
                if self.lock_attempt <= LOCK_RETRY_ATTEMPTS {
                    let attempt = self.lock_attempt;
                    self.lock_attempt = attempt + 1;
                    return RetryStep::Retry {
                        reason: RetryReason::DeviceLocked,
                        attempt,
                        max: LOCK_RETRY_ATTEMPTS,
                        delay_secs: LOCK_RETRY_DELAY,
                    };
                }
            },
            CradleError::HostIoError => {
                if self.host_io_attempt <= HOST_IO_RETRY_ATTEMPTS {
                    let attempt = self.host_io_attempt;
                    self.host_io_attempt = attempt + 1;
                    return RetryStep::Retry {
                        reason: RetryReason::HostIo,
                        attempt,
                        max: HOST_IO_RETRY_ATTEMPTS,
                        delay_secs: HOST_IO_RETRY_DELAY,
                    };
                }
            },
            CradleError::Stalled => {
                if self.stall_attempt <= STALL_RETRY_ATTEMPTS {
                    let attempt = self.stall_attempt;
                    self.stall_attempt = attempt + 1;
                    return RetryStep::Retry {
                        reason: RetryReason::Stalled,
                        attempt,
                        max: STALL_RETRY_ATTEMPTS,
                        delay_secs: STALL_RETRY_DELAY,
                    };
                }
            },
            _ => {},
        }
        RetryStep::GiveUp
    }

    /// How many more tries there can be at most.
    pub open spec fn retries_left(self) -> int {
        (if self.lock_attempt <= LOCK_RETRY_ATTEMPTS {
            LOCK_RETRY_ATTEMPTS + 1 - self.lock_attempt
        } else {
            0
        }) + (if self.host_io_attempt <= HOST_IO_RETRY_ATTEMPTS {
            HOST_IO_RETRY_ATTEMPTS + 1 - self.host_io_attempt
        } else {
            0
        }) + (if self.stall_attempt <= STALL_RETRY_ATTEMPTS {
            STALL_RETRY_ATTEMPTS + 1 - self.stall_attempt
        } else {
            0
        })
    }
}

/// The state after several failures, each of them tried again.
pub open spec fn retried(s: RetryState, failures: Seq<ErrorView>) -> Option<RetryState>
    decreases failures.len(),
{
    if failures.len() == 0 {
        Some(s)
    } else {
        match retried(s, failures.drop_last()) {
            None => None,
            Some(now) => match now.after(failures.last()) {
                (RetryStep::GiveUp, _) => None,
                (_, next) => Some(next),
            },
        }
    }
}

/// Trying again comes to an end: whatever the failures are and in whatever
/// order they come, a backup is tried again at most twelve times for a locked
/// device and three times for each of the other reasons.
pub proof fn law_retries_are_bounded(failures: Seq<ErrorView>)
    requires
        retried(RetryState::first(), failures) is Some,
    ensures
        failures.len() + retried(RetryState::first(), failures)->0.retries_left()
            == RetryState::first().retries_left(),
        failures.len() <= 18,
    decreases failures.len(),
{
    if failures.len() > 0 {
        law_retries_are_bounded(failures.drop_last());
    }
    retried_attempts_in_range(failures);
}

/// No reason's try number exceeds its limit.
proof fn retried_attempts_in_range(failures: Seq<ErrorView>)
    requires
        retried(RetryState::first(), failures) is Some,
    ensures
        ({
            let s = retried(RetryState::first(), failures)->0;
            &&& 1 <= s.lock_attempt <= LOCK_RETRY_ATTEMPTS + 1
            &&& 1 <= s.host_io_attempt <= HOST_IO_RETRY_ATTEMPTS + 1
            &&& 1 <= s.stall_attempt <= STALL_RETRY_ATTEMPTS + 1
        }),
    decreases failures.len(),
{
    if failures.len() > 0 {
        retried_attempts_in_range(failures.drop_last());
    }
}

/// The reason a failure gives to try again, if any.
pub open spec fn reason_of(failure: ErrorView) -> Option<RetryReason> {
    match failure {
        ErrorView::DeviceLocked => Some(RetryReason::DeviceLocked),
        ErrorView::HostIoError => Some(RetryReason::HostIo),
        ErrorView::Stalled => Some(RetryReason::Stalled),
        _ => None,
    }
}

/// How many of the failures give this reason.
pub open spec fn times(failures: Seq<ErrorView>, reason: RetryReason) -> nat
    decreases failures.len(),
{
    if failures.len() == 0 {
        0
    } else {
        times(failures.drop_last(), reason) + if reason_of(failures.last()) == Some(reason) {
            1nat
        } else {
            0nat
        }
    }
}

/// A backup is tried again just as long as each failure gives a reason, and none
/// comes more often than its limit: each reason is counted by itself.
pub proof fn law_each_reason_has_its_limit(failures: Seq<ErrorView>)
    ensures
        retried(RetryState::first(), failures) is Some <==> {
            &&& forall|i: int| 0 <= i < failures.len() ==> reason_of(#[trigger] failures[i]) is Some
            &&& times(failures, RetryReason::DeviceLocked) <= LOCK_RETRY_ATTEMPTS
            &&& times(failures, RetryReason::HostIo) <= HOST_IO_RETRY_ATTEMPTS
            &&& times(failures, RetryReason::Stalled) <= STALL_RETRY_ATTEMPTS
        },
        retried(RetryState::first(), failures) matches Some(s) ==> {
            &&& s.lock_attempt == 1 + times(failures, RetryReason::DeviceLocked)
            &&& s.host_io_attempt == 1 + times(failures, RetryReason::HostIo)
            &&& s.stall_attempt == 1 + times(failures, RetryReason::Stalled)
        },
    decreases failures.len(),
{
    if failures.len() > 0 {
        let before = failures.drop_last();
        law_each_reason_has_its_limit(before);
        assert forall|i: int| 0 <= i < before.len() implies before[i] == failures[i] by {}
        assert(failures.last() == failures[failures.len() - 1]);
        if forall|i: int| 0 <= i < failures.len() ==> reason_of(#[trigger] failures[i]) is Some {
            assert forall|i: int| 0 <= i < before.len() implies reason_of(
                #[trigger] before[i],
            ) is Some by {
                assert(reason_of(failures[i]) is Some);
            }
        }
        if retried(RetryState::first(), failures) is Some {
            assert forall|i: int| 0 <= i < failures.len() implies reason_of(
                #[trigger] failures[i],
            ) is Some by {
                if i < before.len() {
                    assert(reason_of(before[i]) is Some);
                }
            }
        }
    }
}

/// Only a locked device, a failure of the Mac and a silent device are tried
/// again; any other failure is reported at once.
pub proof fn law_other_failures_are_final(s: RetryState, failure: ErrorView)
    requires
        !(failure is DeviceLocked),
        !(failure is HostIoError),
        !(failure is Stalled),
    ensures
        s.after(failure) == (RetryStep::GiveUp, s),
{
}

/// Whether to wait on for memory before a try after a failure of the Mac:
/// only while memory is known to be low, and only so long.
pub open spec fn waits_on(waited_secs: u64, free_memory: Option<u64>) -> bool {
    waited_secs < HOST_IO_MAX_EXTRA_WAIT_SECS && match free_memory {
        Some(n) => n < MIN_FREE_MEMORY_BYTES,
        None => false,
    }
}

/// How many seconds to wait on for memory, after having waited on for
/// `waited_secs` already; nothing where it is time to try.
pub fn wait_for_host_io_retry(waited_secs: u64, free_memory: Option<u64>) -> (r: Option<u64>)
    ensures
        r == (if waits_on(waited_secs, free_memory) {
            Some(HOST_IO_POLL_SECS)
        } else {
            None
        }),
{
    if waited_secs < HOST_IO_MAX_EXTRA_WAIT_SECS {
        if let Some(n) = free_memory {
            if n < MIN_FREE_MEMORY_BYTES {
                return Some(HOST_IO_POLL_SECS);
            }
        }
    }
    None
}

/// The seconds spent waiting on, for the readings of free memory that come.
pub open spec fn total_wait(readings: Seq<Option<u64>>) -> u64
    decreases readings.len(),
{
    if readings.len() == 0 {
        0
    } else {
        let so_far = total_wait(readings.drop_last());
        if waits_on(so_far, readings.last()) {
            (so_far + HOST_IO_POLL_SECS) as u64
        } else {
            so_far
        }
    }
}

/// However low memory stays, waiting on for it takes no longer than its limit.
pub proof fn law_wait_is_bounded(readings: Seq<Option<u64>>)
    ensures
        total_wait(readings) <= HOST_IO_MAX_EXTRA_WAIT_SECS,
        total_wait(readings) % HOST_IO_POLL_SECS == 0,
    decreases readings.len(),
{
    if readings.len() > 0 {
        law_wait_is_bounded(readings.drop_last());
    }
}

// --- backup encryption ---------------------------------------------------------------------

/// What to run to change backup encryption: passwords go by the environment,
/// never by the arguments.
#[derive(Debug)]
pub struct EncryptionChange {
    pub args: Vec<String>,
    pub env: Vec<(String, String)>,
}

/// The environment as pairs of sequences of characters.
pub open spec fn env_views(v: Seq<(String, String)>) -> Seq<(Seq<char>, Seq<char>)> {
    v.map_values(|p: (String, String)| (p.0@, p.1@))
}

/// The arguments and the environment for changing backup encryption from an
/// old password to a new one; no password stands for no encryption.
pub open spec fn change_for(
    udid: Seq<char>,
    dir: Seq<char>,
    old_password: Option<Seq<char>>,
    new_password: Option<Seq<char>>,
) -> Option<(Seq<Seq<char>>, Seq<(Seq<char>, Seq<char>)>)> {
    match (old_password, new_password) {
        (None, Some(new)) => Some(
            (
                seq!["-u"@, udid, "encryption"@, "on"@, dir],
                seq![("BACKUP_PASSWORD_NEW"@, new)],
            ),
        ),
        (Some(was), None) => Some(
            (seq!["-u"@, udid, "encryption"@, "off"@, dir], seq![("BACKUP_PASSWORD"@, was)]),
        ),
        (Some(was), Some(new)) => Some(
            (
                seq!["-u"@, udid, "changepw"@, dir],
                seq![("BACKUP_PASSWORD"@, was), ("BACKUP_PASSWORD_NEW"@, new)],
            ),
        ),
        (None, None) => None,
    }
}

/// Works out how to change backup encryption.
pub fn plan_encryption(
    udid: &str,
    dir: &str,
    old_password: Option<&str>,
    new_password: Option<&str>,
) -> (r: Result<EncryptionChange, CradleError>)
    ensures
        match (
            r,
            change_for(
                udid@,
                dir@,
                crate::paths::opt_text(old_password),
                crate::paths::opt_text(new_password),
            ),
        ) {
            (Ok(c), Some((args, env))) => texts(c.args@) == args && env_views(c.env@) == env,
            (Err(e), None) => e@ == ErrorView::Other("no password change requested"@),
            _ => false,
        },
{
    let mut args: Vec<String> = vec!["-u".to_owned(), udid.to_owned()];
    let mut env: Vec<(String, String)> = Vec::new();
    match (old_password, new_password) {
        (None, Some(new)) => {
            env.push(("BACKUP_PASSWORD_NEW".to_owned(), new.to_owned()));
            args.push("encryption".to_owned());
            args.push("on".to_owned());
            args.push(dir.to_owned());
            assert(texts(args@) =~= seq!["-u"@, udid@, "encryption"@, "on"@, dir@]);
            assert(env_views(env@) =~= seq![("BACKUP_PASSWORD_NEW"@, new@)]);
        },
        (Some(was), None) => {
            env.push(("BACKUP_PASSWORD".to_owned(), was.to_owned()));
            args.push("encryption".to_owned());
            args.push("off".to_owned());
            args.push(dir.to_owned());
            assert(texts(args@) =~= seq!["-u"@, udid@, "encryption"@, "off"@, dir@]);
            assert(env_views(env@) =~= seq![("BACKUP_PASSWORD"@, was@)]);
        },
        (Some(was), Some(new)) => {
            env.push(("BACKUP_PASSWORD".to_owned(), was.to_owned()));
            env.push(("BACKUP_PASSWORD_NEW".to_owned(), new.to_owned()));
            args.push("changepw".to_owned());
            args.push(dir.to_owned());
            assert(texts(args@) =~= seq!["-u"@, udid@, "changepw"@, dir@]);
            assert(env_views(env@) =~= seq![
                ("BACKUP_PASSWORD"@, was@),
                ("BACKUP_PASSWORD_NEW"@, new@),
            ]);
        },
        (None, None) => {
            return Err(CradleError::Other("no password change requested".to_owned()));
        },
    }
    Ok(EncryptionChange { args, env })
}

/// What is said when the device did not take the change.
pub open spec fn refused_change(now_enabled: bool) -> Seq<char> {
    "The device did not accept the change — backup encryption is still "@ + (if now_enabled {
        "on"@
    } else {
        "off"@
    })
        + ". iOS silently refuses to enable backup encryption on a device with no passcode set; set a passcode under Settings > Face ID & Passcode (or Touch ID & Passcode) and try again."@
}

/// What came of changing backup encryption: the tool's success counts only
/// where the device then says what was asked for.
pub fn set_encryption(result: RunResult, now_enabled: bool, wanted_enabled: bool) -> (r: Result<
    (),
    CradleError,
>)
    ensures
        match (result.outcome, r) {
            (Ok(()), Ok(())) => now_enabled == wanted_enabled,
            (Ok(()), Err(e)) => now_enabled != wanted_enabled && e@ == ErrorView::Other(
                refused_change(now_enabled),
            ),
            (Err(e), Err(x)) => e@ == x@,
            (Err(_), Ok(())) => false,
        },
{
    match result.outcome {
        Err(e) => Err(e),
        Ok(()) => if now_enabled != wanted_enabled {
            Err(
                CradleError::Other(
                    "The device did not accept the change — backup encryption is still ".to_owned().concat(
                        if now_enabled {
                            "on"
                        } else {
                            "off"
                        },
                    ).concat(
                        ". iOS silently refuses to enable backup encryption on a device with no passcode set; set a passcode under Settings > Face ID & Passcode (or Touch ID & Passcode) and try again.",
                    ),
                ),
            )
        } else {
            Ok(())
        },
    }
}

/// What came of changing backup encryption to a new password, or to none.
pub fn encryption_changed(result: RunResult, now_enabled: bool, new_password: Option<&str>) -> (r:
    Result<(), CradleError>)
    ensures
        r is Ok <==> result.outcome is Ok && now_enabled == (new_password is Some),
        match (result.outcome, r) {
            (Ok(()), Err(e)) => e@ == ErrorView::Other(refused_change(now_enabled)),
            (Err(e), Err(x)) => x@ == e@,
            _ => true,
        },
{
    set_encryption(result, now_enabled, new_password.is_some())
}

/// No password ever shows in the arguments: they are the same for any other
/// passwords in their place.
pub proof fn law_passwords_stay_out_of_arguments(
    udid: Seq<char>,
    dir: Seq<char>,
    old_password: Option<Seq<char>>,
    new_password: Option<Seq<char>>,
    other_old: Option<Seq<char>>,
    other_new: Option<Seq<char>>,
)
    requires
        old_password is Some <==> other_old is Some,
        new_password is Some <==> other_new is Some,
    ensures
        match (
            change_for(udid, dir, old_password, new_password),
            change_for(udid, dir, other_old, other_new),
        ) {
            (Some((args, _)), Some((other_args, _))) => args == other_args,
            (None, None) => old_password is None && new_password is None,
            _ => false,
        },
{
}

/// A failure is tried again for its own reason: with that reason's count, limit and
/// delay, and only that reason's count goes on. Past the limit nothing goes on.
pub proof fn law_retry_is_for_its_reason(s: RetryState, failure: ErrorView)
    ensures
        failure is DeviceLocked && s.lock_attempt <= 12 ==> s.after(failure) == (
            RetryStep::Retry {
                reason: RetryReason::DeviceLocked,
                attempt: s.lock_attempt,
                max: 12,
                delay_secs: 10,
            },
            RetryState {
                lock_attempt: (s.lock_attempt + 1) as u32,
                host_io_attempt: s.host_io_attempt,
                stall_attempt: s.stall_attempt,
            },
        ),
        failure is HostIoError && s.host_io_attempt <= 3 ==> s.after(failure) == (
            RetryStep::Retry {
                reason: RetryReason::HostIo,
                attempt: s.host_io_attempt,
                max: 3,
                delay_secs: 30,
            },
            RetryState {
                lock_attempt: s.lock_attempt,
                host_io_attempt: (s.host_io_attempt + 1) as u32,
                stall_attempt: s.stall_attempt,
            },
        ),
        failure is Stalled && s.stall_attempt <= 3 ==> s.after(failure) == (
            RetryStep::Retry {
                reason: RetryReason::Stalled,
                attempt: s.stall_attempt,
                max: 3,
                delay_secs: 30,
            },
            RetryState {
                lock_attempt: s.lock_attempt,
                host_io_attempt: s.host_io_attempt,
                stall_attempt: (s.stall_attempt + 1) as u32,
            },
        ),
        failure is DeviceLocked && s.lock_attempt > 12 ==> s.after(failure) == (
            RetryStep::GiveUp,
            s,
        ),
        failure is HostIoError && s.host_io_attempt > 3 ==> s.after(failure) == (
            RetryStep::GiveUp,
            s,
        ),
        failure is Stalled && s.stall_attempt > 3 ==> s.after(failure) == (RetryStep::GiveUp, s),
        RetryState::first().lock_attempt == 1,
        RetryState::first().host_io_attempt == 1,
        RetryState::first().stall_attempt == 1,
{
}

/// Memory is waited for only while it is known to be low, less than a gigabyte, and
/// for a minute and a half at most.
pub proof fn law_memory_is_waited_for(waited_secs: u64, free: u64)
    ensures
        waits_on(waited_secs, Some(free)) <==> waited_secs < 90 && free < 1024 * 1024 * 1024,
        !waits_on(waited_secs, None),
{
}

/// Encryption is turned on with a new password, off with the old one, and changed with
/// both; each password goes by its own name, and no other is there.
pub proof fn law_encryption_change(
    udid: Seq<char>,
    dir: Seq<char>,
    was: Seq<char>,
    new: Seq<char>,
)
    ensures
        change_for(udid, dir, None, Some(new)) == Some(
            (
                seq!["-u"@, udid, "encryption"@, "on"@, dir],
                seq![("BACKUP_PASSWORD_NEW"@, new)],
            ),
        ),
        change_for(udid, dir, Some(was), None) == Some(
            (seq!["-u"@, udid, "encryption"@, "off"@, dir], seq![("BACKUP_PASSWORD"@, was)]),
        ),
        change_for(udid, dir, Some(was), Some(new)) == Some(
            (
                seq!["-u"@, udid, "changepw"@, dir],
                seq![("BACKUP_PASSWORD"@, was), ("BACKUP_PASSWORD_NEW"@, new)],
            ),
        ),
        change_for(udid, dir, None, None) is None,
{
}

/// A change that the device did not take is told with how encryption still stands.
pub proof fn law_refused_change()
    ensures
        refused_change(true)
            == "The device did not accept the change — backup encryption is still "@ + "on"@
            + ". iOS silently refuses to enable backup encryption on a device with no passcode set; set a passcode under Settings > Face ID & Passcode (or Touch ID & Passcode) and try again."@,
        refused_change(false)
            == "The device did not accept the change — backup encryption is still "@ + "off"@
            + ". iOS silently refuses to enable backup encryption on a device with no passcode set; set a passcode under Settings > Face ID & Passcode (or Touch ID & Passcode) and try again."@,
{
}

/// A failure from before the transfer keeps its error, and nothing moved.
pub proof fn law_unmoved(source: CradleError)
    ensures
        unmoved(source).source == source,
        unmoved(source).bytes_transferred == 0,
        unmoved(source).files_received == 0,
{
}

} // verus!
