//! The order in which a backup, an archive and a restore go: what each step
//! needs of the one before, and what it leaves in the catalog.
use vstd::prelude::*;

use crate::archive::BackupSummary;
use crate::backup::{self, BackupError};
use crate::catalog::{
    has_device, has_run, law_latest_verified_is_verified, snapshot_fits, table_full,
    verified_listed, ArchiveState, Catalog, CatalogView, DestinationRecord, DeviceRecord,
    DeviceView, RunKind, RunStatus,
};
use crate::commands::RestoreSummary;
use crate::error::{CradleError, ErrorView};
use crate::libimobiledevice::DeviceInfo;
use crate::paths::{join, joined};
use crate::precheck;
use crate::restore;
use crate::text::{join_by, joined_by, texts};
use crate::verify;

verus! {

// --- backup --------------------------------------------------------------------------------

/// What a backup is asked to do.
#[derive(Debug)]
pub struct BackupRequest {
    pub udid: String,
    pub working_root: String,
    /// Transfer everything, not only what changed.
    pub full: bool,
}

/// Why a backup did not come to its end.
#[derive(Debug)]
pub enum WorkflowError {
    /// It never started: nothing was recorded of it.
    NotStarted(NotStartedReason),
    /// It started and failed, having moved this much.
    Failed { source: CradleError, bytes_transferred: u64, files_transferred: u64 },
}

/// Why a backup did not start.
#[derive(Debug)]
pub enum NotStartedReason {
    Precheck(Box<precheck::Report>),
    SetupFailed(CradleError),
}

impl WorkflowError {
    /// The words this is shown with.
    pub open spec fn words(&self) -> Seq<char> {
        match self {
            WorkflowError::NotStarted(NotStartedReason::Precheck(_)) => "prechecks failed"@,
            WorkflowError::NotStarted(NotStartedReason::SetupFailed(e)) => e@.text(),
            WorkflowError::Failed { source, .. } => source@.text(),
        }
    }

    /// The words this is shown with.
    pub fn message(&self) -> (s: String)
        ensures
            s@ == self.words(),
    {
        match self {
            WorkflowError::NotStarted(reason) => match reason {
                NotStartedReason::Precheck(_) => "prechecks failed".to_owned(),
                NotStartedReason::SetupFailed(e) => e.message(),
            },
            WorkflowError::Failed { source, .. } => source.message(),
        }
    }
}

/// What came of a backup that came to its end.
#[derive(Debug)]
pub struct BackupOutcome {
    pub backup_dir: String,
    pub bytes_transferred: u64,
    pub gate: verify::Report,
}

/// A backup that may start.
#[derive(Debug)]
pub struct CheckedBackup {
    pub device: DeviceInfo,
    pub encrypted: bool,
}

/// Takes in the prechecks: a backup goes on only where they pass.
pub fn checked(report: Result<precheck::Report, CradleError>) -> (r: Result<
    CheckedBackup,
    WorkflowError,
>)
    requires
        report matches Ok(p) ==> p.allows() ==> p.device is Some,
    ensures
        match (report, r) {
            (Ok(p), Ok(c)) => p.allows() && p.device == Some(c.device) && c.encrypted
                == p.encryption_enabled,
            (Ok(p), Err(WorkflowError::NotStarted(NotStartedReason::Precheck(b)))) => !p.allows()
                && *b == p,
            (Err(e), Err(WorkflowError::NotStarted(NotStartedReason::SetupFailed(x)))) => x == e,
            _ => false,
        },
{
    match report {
        Err(e) => Err(WorkflowError::NotStarted(NotStartedReason::SetupFailed(e))),
        Ok(p) => {
            if !p.passed() {
                return Err(WorkflowError::NotStarted(NotStartedReason::Precheck(Box::new(p))));
            }
            let encrypted = p.encryption_enabled;
            Ok(CheckedBackup { device: p.device.unwrap(), encrypted })
        },
    }
}

/// A device as the prechecks found it.
pub open spec fn device_found(
    udid: Seq<char>,
    info: DeviceInfo,
    encrypted: bool,
    now: i64,
) -> DeviceView {
    DeviceView {
        udid,
        name: info.name@,
        product_type: info.product_type@,
        ios_version: info.ios_version@,
        encrypted,
        last_seen: now,
    }
}

/// The catalog made ready for a backup of a device: what was left running is
/// closed, and the device is up to date.
pub open spec fn prepared(
    c: CatalogView,
    udid: Seq<char>,
    info: DeviceInfo,
    encrypted: bool,
    now: i64,
) -> CatalogView {
    c.runs_abandoned(udid, now).seen(device_found(udid, info, encrypted, now))
}

/// The record of a device under `udid`.
fn device_record(udid: &str, info: &DeviceInfo, encrypted: bool) -> (d: DeviceRecord)
    ensures
        forall|now: i64|
            #![auto]
            crate::catalog::device_seen(d, now) == device_found(udid@, *info, encrypted, now),
{
    DeviceRecord {
        udid: udid.to_owned(),
        name: info.name.clone(),
        product_type: info.product_type.clone(),
        ios_version: info.ios_version.clone(),
        encrypted,
    }
}

/// A backup whose run is open in the catalog.
#[derive(Debug)]
pub struct OpenRun {
    pub run_id: i64,
    pub udid: String,
    pub ios_version: String,
}

impl CheckedBackup {
    /// Opens the run, once the working directory is held: nothing is recorded
    /// where it could not be.
    pub fn open_run(
        self,
        catalog: &mut Catalog,
        udid: &str,
        lock: Result<(), CradleError>,
        now: i64,
    ) -> (r: Result<OpenRun, WorkflowError>)
        requires
            old(catalog)@.wf(),
        ensures
            final(catalog)@.wf(),
            ({
                let ready = prepared(old(catalog)@, udid@, self.device, self.encrypted, now);
                match (lock, r) {
                    (Ok(()), Ok(run)) => {
                        &&& final(catalog)@ == ready.started(udid@, RunKind::Backup, now)
                        &&& run.run_id == old(catalog)@.last_run + 1
                        &&& run.udid@ == udid@
                        &&& run.ios_version@ == self.device.ios_version@
                        &&& has_run(final(catalog)@.runs, run.run_id)
                        &&& has_device(final(catalog)@.devices, udid@)
                    },
                    (Ok(()), Err(WorkflowError::NotStarted(NotStartedReason::SetupFailed(e)))) => {
                        &&& old(catalog)@.last_run == i64::MAX
                        &&& e@ == table_full()
                        &&& final(catalog)@ == ready
                    },
                    (Err(e), Err(WorkflowError::NotStarted(NotStartedReason::SetupFailed(x)))) => x
                        == e && final(catalog)@ == old(catalog)@,
                    _ => false,
                }
            }),
    {
        if let Err(e) = lock {
            return Err(WorkflowError::NotStarted(NotStartedReason::SetupFailed(e)));
        }
        let ghost before = catalog@;
        let _ = catalog.fail_abandoned_runs(udid, now);
        let record = device_record(udid, &self.device, self.encrypted);
        catalog.upsert_device(&record, now);
        proof {
            assert(crate::catalog::device_seen(record, now) == device_found(
                udid@,
                self.device,
                self.encrypted,
                now,
            ));
            crate::catalog::seen_is_known(
                before.runs_abandoned(udid@, now),
                device_found(udid@, self.device, self.encrypted, now),
            );
        }
        match catalog.start_run(udid, RunKind::Backup, now) {
            Ok(run_id) => Ok(
                OpenRun { run_id, udid: udid.to_owned(), ios_version: self.device.ios_version },
            ),
            Err(e) => Err(WorkflowError::NotStarted(NotStartedReason::SetupFailed(e))),
        }
    }
}

/// The catalog with a run closed as failed.
pub open spec fn run_failed(
    c: CatalogView,
    run_id: i64,
    source: ErrorView,
    bytes: u64,
    files: u64,
    now: i64,
) -> CatalogView {
    c.run_ended(run_id, now, RunStatus::Failed, bytes, files, Some(source.text()))
}

impl OpenRun {
    /// Closes the run as failed.
    fn fail(
        &self,
        catalog: &mut Catalog,
        source: CradleError,
        bytes: u64,
        files: u64,
        now: i64,
    ) -> (e: WorkflowError)
        requires
            old(catalog)@.wf(),
        ensures
            final(catalog)@.wf(),
            final(catalog)@ == run_failed(
                old(catalog)@,
                self.run_id,
                source@,
                bytes,
                files,
                now,
            ),
            e == (WorkflowError::Failed {
                source,
                bytes_transferred: bytes,
                files_transferred: files,
            }),
    {
        let words = source.message();
        catalog.finish_run(
            self.run_id,
            RunStatus::Failed,
            bytes,
            files,
            Some(words.as_str()),
            now,
        );
        WorkflowError::Failed { source, bytes_transferred: bytes, files_transferred: files }
    }

    /// Takes in what came of the transfer: one that failed closes the run, with
    /// what it moved.
    pub fn transferred(
        self,
        catalog: &mut Catalog,
        outcome: Result<backup::Outcome, BackupError>,
        now: i64,
    ) -> (r: Result<TransferredRun, WorkflowError>)
        requires
            old(catalog)@.wf(),
        ensures
            final(catalog)@.wf(),
            match (outcome, r) {
                (Ok(o), Ok(t)) => {
                    &&& t.run == self
                    &&& t.outcome == o
                    &&& final(catalog)@ == old(catalog)@
                },
                (Err(e), Err(x)) => {
                    &&& final(catalog)@ == run_failed(
                        old(catalog)@,
                        self.run_id,
                        e.source@,
                        e.bytes_transferred,
                        e.files_received,
                        now,
                    )
                    &&& x == (WorkflowError::Failed {
                        source: e.source,
                        bytes_transferred: e.bytes_transferred,
                        files_transferred: e.files_received,
                    })
                },
                _ => false,
            },
    {
        match outcome {
            Ok(outcome) => Ok(TransferredRun { run: self, outcome }),
            Err(e) => Err(
                self.fail(catalog, e.source, e.bytes_transferred, e.files_received, now),
            ),
        }
    }
}

/// A backup whose transfer succeeded.
#[derive(Debug)]
pub struct TransferredRun {
    pub run: OpenRun,
    pub outcome: backup::Outcome,
}

/// The catalog with what verification made of a backup: an invalid one fails its
/// run, any other ends it with a snapshot, verified only where verification says so.
pub open spec fn recorded(
    c: CatalogView,
    t: TransferredRun,
    gate: verify::Report,
    now: i64,
) -> CatalogView {
    if gate.outcome == verify::Outcome::Invalid {
        c.run_ended(
            t.run.run_id,
            now,
            RunStatus::Failed,
            t.outcome.bytes_transferred,
            gate.files_on_disk,
            Some(joined_by(texts(gate.problems@), " "@)),
        )
    } else if snapshot_fits(c, t.run.udid@, t.run.run_id) {
        c.run_ended(
            t.run.run_id,
            now,
            RunStatus::Succeeded,
            t.outcome.bytes_transferred,
            gate.files_on_disk,
            None,
        ).taken(
            c.next_snapshot(
                t.run.udid@,
                t.run.run_id,
                gate.total_bytes,
                t.run.ios_version@,
                gate.outcome == verify::Outcome::Verified,
                now,
            ),
        )
    } else {
        c
    }
}

impl TransferredRun {
    /// Takes in the stored backup password: one that could not be looked up
    /// closes the run.
    pub fn with_password(
        self,
        catalog: &mut Catalog,
        stored: Result<Option<String>, CradleError>,
        now: i64,
    ) -> (r: Result<(TransferredRun, Option<String>), WorkflowError>)
        requires
            old(catalog)@.wf(),
        ensures
            final(catalog)@.wf(),
            match (stored, r) {
                (Ok(p), Ok(x)) => x == (self, p) && final(catalog)@ == old(catalog)@,
                (Err(e), Err(x)) => {
                    &&& final(catalog)@ == run_failed(
                        old(catalog)@,
                        self.run.run_id,
                        e@,
                        self.outcome.bytes_transferred,
                        self.outcome.files_received,
                        now,
                    )
                    &&& x == (WorkflowError::Failed {
                        source: e,
                        bytes_transferred: self.outcome.bytes_transferred,
                        files_transferred: self.outcome.files_received,
                    })
                },
                _ => false,
            },
    {
        match stored {
            Ok(p) => Ok((self, p)),
            Err(e) => Err(
                self.run.fail(
                    catalog,
                    e,
                    self.outcome.bytes_transferred,
                    self.outcome.files_received,
                    now,
                ),
            ),
        }
    }

    /// Takes in what verification found, and closes the run.
    pub fn judged(
        self,
        catalog: &mut Catalog,
        gate: Result<verify::Report, CradleError>,
        now: i64,
    ) -> (r: Result<BackupOutcome, WorkflowError>)
        requires
            old(catalog)@.wf(),
        ensures
            final(catalog)@.wf(),
            match (gate, r) {
                (Ok(g), Ok(o)) => {
                    &&& final(catalog)@ == recorded(old(catalog)@, self, g, now)
                    &&& o.gate == g
                    &&& o.backup_dir@ == self.outcome.backup_dir@
                    &&& o.bytes_transferred == self.outcome.bytes_transferred
                },
                (Err(e), Err(x)) => {
                    &&& final(catalog)@ == run_failed(
                        old(catalog)@,
                        self.run.run_id,
                        e@,
                        self.outcome.bytes_transferred,
                        self.outcome.files_received,
                        now,
                    )
                    &&& x == (WorkflowError::Failed {
                        source: e,
                        bytes_transferred: self.outcome.bytes_transferred,
                        files_transferred: self.outcome.files_received,
                    })
                },
                _ => false,
            },
    {
        let g = match gate {
            Ok(g) => g,
            Err(e) => return Err(
                self.run.fail(
                    catalog,
                    e,
                    self.outcome.bytes_transferred,
                    self.outcome.files_received,
                    now,
                ),
            ),
        };
        if g.outcome == verify::Outcome::Invalid {
            let problems = join_by(&g.problems, " ");
            catalog.finish_run(
                self.run.run_id,
                RunStatus::Failed,
                self.outcome.bytes_transferred,
                g.files_on_disk,
                Some(problems.as_str()),
                now,
            );
        } else {
            let _ = catalog.finish_run_with_snapshot(
                self.run.run_id,
                self.outcome.bytes_transferred,
                g.files_on_disk,
                self.run.udid.as_str(),
                g.total_bytes,
                self.run.ios_version.as_str(),
                g.outcome == verify::Outcome::Verified,
                now,
            );
        }
        Ok(
            BackupOutcome {
                backup_dir: self.outcome.backup_dir,
                bytes_transferred: self.outcome.bytes_transferred,
                gate: g,
            },
        )
    }
}

/// A backup that verification finds invalid never leaves a snapshot.
pub proof fn law_invalid_leaves_no_snapshot(
    c: CatalogView,
    t: TransferredRun,
    gate: verify::Report,
    now: i64,
)
    requires
        gate.outcome == verify::Outcome::Invalid,
    ensures
        recorded(c, t, gate, now).snapshots == c.snapshots,
{
}

/// The snapshot of a backup counts as verified just when verification says so.
pub proof fn law_snapshot_is_as_verified_as_its_gate(
    c: CatalogView,
    t: TransferredRun,
    gate: verify::Report,
    now: i64,
)
    requires
        gate.outcome != verify::Outcome::Invalid,
        snapshot_fits(c, t.run.udid@, t.run.run_id),
    ensures
        ({
            let next = recorded(c, t, gate, now);
            &&& next.snapshots.len() == c.snapshots.len() + 1
            &&& next.snapshots.last().udid == t.run.udid@
            &&& next.snapshots.last().run_id == t.run.run_id
            &&& next.snapshots.last().verified_at is Some <==> gate.outcome
                == verify::Outcome::Verified
        }),
{
}

/// Once its backup came to an end, whichever way, a run is no longer running.
pub proof fn law_run_does_not_stay_open(
    c: CatalogView,
    t: TransferredRun,
    gate: verify::Report,
    source: ErrorView,
    bytes: u64,
    files: u64,
    now: i64,
    i: int,
)
    requires
        0 <= i < c.runs.len(),
        c.runs[i].id == t.run.run_id,
        gate.outcome == verify::Outcome::Invalid || snapshot_fits(
            c,
            t.run.udid@,
            t.run.run_id,
        ),
    ensures
        recorded(c, t, gate, now).runs[i].status != RunStatus::Running.word(),
        run_failed(c, t.run.run_id, source, bytes, files, now).runs[i].status
            == RunStatus::Failed.word(),
        run_failed(c, t.run.run_id, source, bytes, files, now).runs[i].status
            != RunStatus::Running.word(),
{
    crate::catalog::law_words_tell_apart(
        RunStatus::Failed,
        RunStatus::Running,
        ArchiveState::Failed,
        ArchiveState::Pending,
    );
    crate::catalog::law_words_tell_apart(
        RunStatus::Succeeded,
        RunStatus::Running,
        ArchiveState::Failed,
        ArchiveState::Pending,
    );
}

/// A backup never opens a run beside one of the same device that is still
/// running: the one it opens is the only one.
pub proof fn law_one_run_at_a_time(
    c: CatalogView,
    udid: Seq<char>,
    info: DeviceInfo,
    encrypted: bool,
    now: i64,
    i: int,
)
    requires
        0 <= i < c.runs.len(),
    ensures
        ({
            let next = prepared(c, udid, info, encrypted, now).started(
                udid,
                RunKind::Backup,
                now,
            );
            &&& next.runs.len() == c.runs.len() + 1
            &&& !crate::catalog::is_running(next.runs[i], udid)
            &&& crate::catalog::is_running(next.runs.last(), udid)
        }),
{
    crate::catalog::law_abandoned_runs_are_closed(c, udid, now, i);
}

// --- archive --------------------------------------------------------------------------------

/// What an archive is asked to do.
#[derive(Debug)]
pub struct ArchiveRequest<'a> {
    pub udid: String,
    pub working_root: String,
    pub destination: &'a DestinationRecord,
}

/// What came of an archive that succeeded.
#[derive(Debug)]
pub struct ArchiveOutcome {
    pub summary: BackupSummary,
}

/// Why nothing was archived.
#[derive(Debug)]
pub enum ArchiveError {
    NoVerifiedSnapshot,
    SourceMissing(String),
    Locked(CradleError),
    NoLongerVerified(verify::Report),
    Failed(CradleError),
}

impl ArchiveError {
    /// The words this is shown with.
    pub open spec fn words(&self) -> Seq<char> {
        match self {
            ArchiveError::NoVerifiedSnapshot => "no verified snapshot yet"@,
            ArchiveError::SourceMissing(dir) => "backup directory "@ + dir@ + " not found"@,
            ArchiveError::Locked(e) => e@.text(),
            ArchiveError::NoLongerVerified(gate) => "no longer verifies: "@ + joined_by(
                texts(gate.problems@),
                " "@,
            ),
            ArchiveError::Failed(e) => e@.text(),
        }
    }

    /// The words this is shown with.
    pub fn message(&self) -> (s: String)
        ensures
            s@ == self.words(),
    {
        match self {
            ArchiveError::NoVerifiedSnapshot => "no verified snapshot yet".to_owned(),
            ArchiveError::SourceMissing(dir) => "backup directory ".to_owned().concat(
                dir.as_str(),
            ).concat(" not found"),
            ArchiveError::Locked(e) => e.message(),
            ArchiveError::NoLongerVerified(gate) => "no longer verifies: ".to_owned().concat(
                join_by(&gate.problems, " ").as_str(),
            ),
            ArchiveError::Failed(e) => e.message(),
        }
    }
}

/// A verified snapshot that may be archived.
#[derive(Debug)]
pub struct ArchiveCandidate {
    pub snapshot_id: i64,
    pub source_dir: String,
}

/// Finds what to archive: the latest verified snapshot of a device.
pub fn find_candidate(catalog: &Catalog, udid: &str, working_root: &str) -> (r: Result<
    ArchiveCandidate,
    ArchiveError,
>)
    ensures
        ({
            let listed = verified_listed(catalog@.snapshots, udid@);
            match r {
                Ok(c) => listed.len() > 0 && c.snapshot_id == listed[0].id && c.source_dir@
                    == joined(working_root@, udid@),
                Err(e) => listed.len() == 0 && e is NoVerifiedSnapshot,
            }
        }),
{
    match catalog.latest_verified_snapshot(udid) {
        Some(s) => Ok(ArchiveCandidate { snapshot_id: s.id, source_dir: join(working_root, udid) }),
        None => Err(ArchiveError::NoVerifiedSnapshot),
    }
}

impl ArchiveCandidate {
    /// Takes in whether the backup's directory is there.
    pub fn at_source(self, is_dir: bool) -> (r: Result<ArchiveCandidate, ArchiveError>)
        ensures
            match r {
                Ok(c) => is_dir && c == self,
                Err(e) => !is_dir && (e matches ArchiveError::SourceMissing(dir) && dir@
                    == self.source_dir@),
            },
    {
        if is_dir {
            Ok(self)
        } else {
            Err(ArchiveError::SourceMissing(self.source_dir))
        }
    }

    /// Goes on once the working directory is held: archives of the snapshot
    /// that were left pending are closed.
    pub fn locked(self, catalog: &mut Catalog, lock: Result<(), CradleError>) -> (r: Result<
        LockedArchive,
        ArchiveError,
    >)
        requires
            old(catalog)@.wf(),
        ensures
            final(catalog)@.wf(),
            match (lock, r) {
                (Ok(()), Ok(a)) => a.snapshot() == self.snapshot_id && final(catalog)@ == old(
                    catalog,
                )@.archives_abandoned(self.snapshot_id),
                (Err(e), Err(ArchiveError::Locked(x))) => x == e && final(catalog)@ == old(
                    catalog,
                )@,
                _ => false,
            },
    {
        match lock {
            Err(e) => Err(ArchiveError::Locked(e)),
            Ok(()) => {
                let _ = catalog.fail_abandoned_archives(self.snapshot_id);
                Ok(LockedArchive { snapshot_id: self.snapshot_id })
            },
        }
    }
}

/// An archive whose source is held.
#[derive(Debug)]
pub struct LockedArchive {
    snapshot_id: i64,
}

/// An archive whose source was verified again just now.
#[derive(Debug)]
pub struct VerifiedArchive {
    snapshot_id: i64,
}

/// An archive that is open in the catalog.
#[derive(Debug)]
pub struct PendingArchive {
    archive_id: i64,
}

impl LockedArchive {
    /// The snapshot to archive.
    pub closed spec fn snapshot(&self) -> i64 {
        self.snapshot_id
    }

    /// Takes in the stored backup password.
    pub fn with_password(self, stored: Result<Option<String>, CradleError>) -> (r: Result<
        (LockedArchive, Option<String>),
        ArchiveError,
    >)
        ensures
            match (stored, r) {
                (Ok(p), Ok(x)) => x == (self, p),
                (Err(e), Err(ArchiveError::Failed(x))) => x == e,
                _ => false,
            },
    {
        match stored {
            Ok(p) => Ok((self, p)),
            Err(e) => Err(ArchiveError::Failed(e)),
        }
    }

    /// Takes in what verification found of the source just now: only what it
    /// verifies is archived.
    pub fn judged(self, gate: Result<verify::Report, CradleError>) -> (r: Result<
        VerifiedArchive,
        ArchiveError,
    >)
        ensures
            match (gate, r) {
                (Ok(g), Ok(a)) => g.outcome == verify::Outcome::Verified && a.snapshot()
                    == self.snapshot(),
                (Ok(g), Err(ArchiveError::NoLongerVerified(x))) => g.outcome
                    != verify::Outcome::Verified && x == g,
                (Err(e), Err(ArchiveError::Failed(x))) => x == e,
                _ => false,
            },
    {
        match gate {
            Err(e) => Err(ArchiveError::Failed(e)),
            Ok(g) => if g.outcome != verify::Outcome::Verified {
                Err(ArchiveError::NoLongerVerified(g))
            } else {
                Ok(VerifiedArchive { snapshot_id: self.snapshot_id })
            },
        }
    }
}

impl VerifiedArchive {
    /// The snapshot to archive.
    pub closed spec fn snapshot(&self) -> i64 {
        self.snapshot_id
    }

    /// Opens the archive in the catalog, once its repository is there.
    pub fn open_archive(
        self,
        catalog: &mut Catalog,
        init: Result<bool, CradleError>,
        destination_id: i64,
        now: i64,
    ) -> (r: Result<PendingArchive, ArchiveError>)
        requires
            old(catalog)@.wf(),
        ensures
            final(catalog)@.wf(),
            match (init, r) {
                (Ok(_), Ok(a)) => {
                    &&& a.number() == old(catalog)@.last_archive + 1
                    &&& final(catalog)@ == old(catalog)@.archiving(
                        self.snapshot(),
                        destination_id,
                        now,
                    )
                },
                (Ok(_), Err(ArchiveError::Failed(e))) => {
                    &&& final(catalog)@ == old(catalog)@
                    &&& if old(catalog)@.last_archive == i64::MAX {
                        e@ == table_full()
                    } else {
                        &&& e@ == crate::catalog::reference_missing()
                        &&& !(crate::catalog::has_snapshot(
                            old(catalog)@.snapshots,
                            self.snapshot(),
                        ) && crate::catalog::has_destination(
                            old(catalog)@.destinations,
                            destination_id,
                        ))
                    }
                },
                (Err(e), Err(ArchiveError::Failed(x))) => x == e && final(catalog)@ == old(
                    catalog,
                )@,
                _ => false,
            },
    {
        if let Err(e) = init {
            return Err(ArchiveError::Failed(e));
        }
        match catalog.start_archive(self.snapshot_id, destination_id, now) {
            Ok(archive_id) => Ok(PendingArchive { archive_id }),
            Err(e) => Err(ArchiveError::Failed(e)),
        }
    }
}

impl PendingArchive {
    /// The number of the archive.
    pub closed spec fn number(&self) -> i64 {
        self.archive_id
    }

    /// Takes in what came of archiving, and closes the archive.
    pub fn finished(
        self,
        catalog: &mut Catalog,
        result: Result<BackupSummary, CradleError>,
        now: i64,
    ) -> (r: Result<ArchiveOutcome, ArchiveError>)
        requires
            old(catalog)@.wf(),
        ensures
            final(catalog)@.wf(),
            match (result, r) {
                (Ok(s), Ok(o)) => o.summary == s && final(catalog)@ == old(
                    catalog,
                )@.archive_closed(
                    self.number(),
                    ArchiveState::Succeeded,
                    Some(s.snapshot_id@),
                    None,
                    now,
                ),
                (Err(e), Err(ArchiveError::Failed(x))) => x == e && final(catalog)@ == old(
                    catalog,
                )@.archive_closed(
                    self.number(),
                    ArchiveState::Failed,
                    None,
                    Some(e@.text()),
                    now,
                ),
                _ => false,
            },
    {
        match result {
            Ok(summary) => {
                catalog.finish_archive(
                    self.archive_id,
                    ArchiveState::Succeeded,
                    Some(summary.snapshot_id.as_str()),
                    None,
                    now,
                );
                Ok(ArchiveOutcome { summary })
            },
            Err(e) => {
                let words = e.message();
                catalog.finish_archive(
                    self.archive_id,
                    ArchiveState::Failed,
                    None,
                    Some(words.as_str()),
                    now,
                );
                Err(ArchiveError::Failed(e))
            },
        }
    }
}

/// What is picked to be archived was verified, and is of the device asked for:
/// a backup that was never verified is never picked.
pub proof fn law_candidate_was_verified(c: CatalogView, udid: Seq<char>)
    ensures
        ({
            let listed = verified_listed(c.snapshots, udid);
            listed.len() > 0 ==> exists|i: int|
                0 <= i < c.snapshots.len() && (#[trigger] c.snapshots[i]).id == listed[0].id
                    && c.snapshots[i].udid == udid && c.snapshots[i].verified_at is Some
        }),
{
    law_latest_verified_is_verified(c, udid);
    let listed = verified_listed(c.snapshots, udid);
    if listed.len() > 0 {
        let i = choose|i: int| 0 <= i < c.snapshots.len() && c.snapshots[i] == listed[0];
        assert(c.snapshots[i].id == listed[0].id);
    }
}

/// An archive of a snapshot never opens beside another that is still pending:
/// the one it opens is the only one.
pub proof fn law_one_archive_at_a_time(
    c: CatalogView,
    snapshot_id: i64,
    destination_id: i64,
    now: i64,
    i: int,
)
    requires
        0 <= i < c.archives.len(),
    ensures
        ({
            let next = c.archives_abandoned(snapshot_id).archiving(
                snapshot_id,
                destination_id,
                now,
            );
            &&& next.archives.len() == c.archives.len() + 1
            &&& !crate::catalog::is_pending(next.archives[i], snapshot_id)
            &&& crate::catalog::is_pending(next.archives.last(), snapshot_id)
        }),
{
    crate::catalog::law_words_tell_apart(
        RunStatus::Failed,
        RunStatus::Running,
        ArchiveState::Failed,
        ArchiveState::Pending,
    );
}

/// Once archiving came to an end, whichever way, the archive is no longer
/// pending, and it is verified just when it succeeded.
pub proof fn law_archive_does_not_stay_open(
    c: CatalogView,
    archive_id: i64,
    restic_id: Option<Seq<char>>,
    error: Option<Seq<char>>,
    succeeded: bool,
    now: i64,
    i: int,
)
    requires
        0 <= i < c.archives.len(),
        c.archives[i].id == archive_id,
    ensures
        ({
            let state = if succeeded {
                ArchiveState::Succeeded
            } else {
                ArchiveState::Failed
            };
            let a = c.archive_closed(archive_id, state, restic_id, error, now).archives[i];
            &&& a.state != ArchiveState::Pending.word()
            &&& a.state == state.word()
            &&& a.verified_at is Some <==> succeeded
        }),
{
    crate::catalog::law_words_tell_apart(
        RunStatus::Failed,
        RunStatus::Running,
        ArchiveState::Failed,
        ArchiveState::Pending,
    );
    crate::catalog::law_words_tell_apart(
        RunStatus::Failed,
        RunStatus::Running,
        ArchiveState::Succeeded,
        ArchiveState::Pending,
    );
}

// --- what stands in the way ------------------------------------------------------------------

/// What stands in the way of a backup.
#[derive(Debug)]
pub enum BackupObstacle {
    /// The device is not paired; what to do about it.
    Pairing(String),
    EncryptionOff,
    /// There is too little disk space.
    LittleSpace(u64),
    /// It is not known how much disk space there is.
    SpaceUnknown,
}

/// What is said of a pairing that failed without a word.
pub const PAIRING_FAILED: &'static str = "Pairing check failed.";

/// What a failed pairing is reported as.
pub open spec fn pairing_words(message: Option<String>) -> Seq<char> {
    match message {
        Some(m) => m@,
        None => PAIRING_FAILED@,
    }
}

/// The first thing that stands in the way of a backup, if anything does.
pub fn backup_obstacle(report: &precheck::Report) -> (r: Option<BackupObstacle>)
    ensures
        match r {
            None => report.allows(),
            Some(BackupObstacle::Pairing(m)) => !report.pairing_valid && m@ == pairing_words(
                report.pairing_message,
            ),
            Some(BackupObstacle::EncryptionOff) => report.pairing_valid
                && !report.encryption_enabled,
            Some(BackupObstacle::LittleSpace(n)) => report.pairing_valid
                && report.encryption_enabled && !report.free_space_ok && report.free_space_bytes
                == Some(n),
            Some(BackupObstacle::SpaceUnknown) => report.pairing_valid && report.encryption_enabled
                && !report.free_space_ok && report.free_space_bytes is None,
        },
{
    if !report.pairing_valid {
        return Some(
            BackupObstacle::Pairing(
                match &report.pairing_message {
                    Some(m) => m.clone(),
                    None => PAIRING_FAILED.to_owned(),
                },
            ),
        );
    }
    if !report.encryption_enabled {
        return Some(BackupObstacle::EncryptionOff);
    }
    if report.free_space_ok {
        return None;
    }
    match report.free_space_bytes {
        Some(n) => Some(BackupObstacle::LittleSpace(n)),
        None => Some(BackupObstacle::SpaceUnknown),
    }
}

/// What stands in the way of a restore.
#[derive(Debug)]
pub enum RestoreObstacle {
    /// The device is not paired; what to do about it.
    Pairing(String),
    FindMyEnabled,
    /// The device runs an older iOS than the backup was made on.
    OlderIos { target: String, backup: String },
    /// The device has too little space.
    LittleSpace { needed: u64, free: u64 },
    /// It is not known how much space the device has.
    SpaceUnknown,
}

/// Whether `o` is the first thing that stands in the way of a restore.
pub open spec fn stops(report: precheck::RestoreReport, o: RestoreObstacle) -> bool {
    match o {
        RestoreObstacle::Pairing(m) => !report.pairing_valid && m@ == pairing_words(
            report.pairing_message,
        ),
        RestoreObstacle::FindMyEnabled => report.pairing_valid && !report.find_my_disabled,
        RestoreObstacle::OlderIos { target, backup } => {
            &&& report.pairing_valid && report.find_my_disabled && !report.target_ios_ok
            &&& target@ == (match report.target_ios_version {
                Some(v) => v@,
                None => "unknown"@,
            })
            &&& backup@ == report.backup_ios_version@
        },
        RestoreObstacle::LittleSpace { needed, free } => {
            &&& report.pairing_valid && report.find_my_disabled && report.target_ios_ok
                && !report.enough_target_space
            &&& needed == report.backup_size_bytes
            &&& report.target_free_bytes == Some(free)
        },
        RestoreObstacle::SpaceUnknown => {
            &&& report.pairing_valid && report.find_my_disabled && report.target_ios_ok
                && !report.enough_target_space
            &&& report.target_free_bytes is None
        },
    }
}

/// The first thing that stands in the way of a restore, if anything does.
pub fn restore_obstacle(report: &precheck::RestoreReport) -> (r: Option<RestoreObstacle>)
    ensures
        match r {
            None => report.allows(),
            Some(o) => stops(*report, o),
        },
{
    if !report.pairing_valid {
        return Some(
            RestoreObstacle::Pairing(
                match &report.pairing_message {
                    Some(m) => m.clone(),
                    None => PAIRING_FAILED.to_owned(),
                },
            ),
        );
    }
    if !report.find_my_disabled {
        return Some(RestoreObstacle::FindMyEnabled);
    }
    if !report.target_ios_ok {
        return Some(
            RestoreObstacle::OlderIos {
                target: match &report.target_ios_version {
                    Some(v) => v.clone(),
                    None => "unknown".to_owned(),
                },
                backup: report.backup_ios_version.clone(),
            },
        );
    }
    if report.enough_target_space {
        return None;
    }
    match report.target_free_bytes {
        Some(free) => Some(
            RestoreObstacle::LittleSpace { needed: report.backup_size_bytes, free },
        ),
        None => Some(RestoreObstacle::SpaceUnknown),
    }
}

// --- restore --------------------------------------------------------------------------------

/// The catalog with a restore's target seen, where it is known.
pub open spec fn target_seen(
    c: CatalogView,
    device: Option<DeviceInfo>,
    encrypted: bool,
    now: i64,
) -> CatalogView {
    match device {
        Some(info) => c.seen(device_found(info.udid@, info, encrypted, now)),
        None => c,
    }
}

/// Where a restore takes its backup from.
#[derive(Debug)]
pub enum RestoreSource {
    /// A snapshot of a destination.
    Archive { destination: String, snapshot: String },
    /// The working directory.
    Working,
}

/// Where a restore takes its backup from: an archive only where both the
/// destination and the snapshot are named.
pub fn restore_source(from_archive: Option<String>, snapshot: Option<String>) -> (s: RestoreSource)
    ensures
        match s {
            RestoreSource::Archive { destination, snapshot: id } => from_archive == Some(
                destination,
            ) && snapshot == Some(id),
            RestoreSource::Working => from_archive is None || snapshot is None,
        },
{
    match (from_archive, snapshot) {
        (Some(destination), Some(snapshot)) => RestoreSource::Archive { destination, snapshot },
        _ => RestoreSource::Working,
    }
}

/// A backup that lies staged for a restore.
#[derive(Debug)]
pub struct StagedRestore {
    /// The device to restore onto.
    pub target: String,
    /// The device the backup was made of.
    pub source: String,
    pub staged_dir: String,
}

/// A staged backup: it was made of the device that its directory is called
/// after, or else of the one asked for.
pub fn staged(target: &str, asked: String, staged_dir: &str) -> (s: StagedRestore)
    ensures
        s.target@ == target@,
        s.staged_dir@ == staged_dir@,
        s.source@ == (match crate::paths::file_name(staged_dir@) {
            Some(name) => name,
            None => asked@,
        }),
{
    let source = match restore::source_udid_from_staged_dir(staged_dir) {
        Some(udid) => udid,
        None => asked,
    };
    StagedRestore { target: target.to_owned(), source, staged_dir: staged_dir.to_owned() }
}

/// A staged backup of which it is known what made it and how large it is.
#[derive(Debug)]
pub struct MeasuredRestore {
    pub staged: StagedRestore,
    pub ios_version: String,
    pub size_bytes: u64,
}

/// Why a restore stops before it is recorded.
#[derive(Debug)]
pub enum RestoreStop {
    /// The prechecks could not be made.
    Unchecked(CradleError),
    Obstacle(RestoreObstacle),
}

/// A restore that may start.
#[derive(Debug)]
pub struct CheckedRestore {
    pub staged: StagedRestore,
    pub device: Option<DeviceInfo>,
}

/// A restore whose run is open in the catalog.
#[derive(Debug)]
pub struct OpenRestore {
    pub staged: StagedRestore,
    pub run_id: i64,
}

impl StagedRestore {
    /// Takes in the iOS version and the size of the staged backup.
    pub fn measured(self, ios_version: Result<String, CradleError>, size: Result<u64, CradleError>) -> (r:
        Result<MeasuredRestore, CradleError>)
        ensures
            match (ios_version, size, r) {
                (Ok(v), Ok(n), Ok(m)) => m == (MeasuredRestore {
                    staged: self,
                    ios_version: v,
                    size_bytes: n,
                }),
                (Err(e), _, Err(x)) => x == e,
                (Ok(_), Err(e), Err(x)) => x == e,
                _ => false,
            },
    {
        match ios_version {
            Err(e) => Err(e),
            Ok(ios_version) => match size {
                Err(e) => Err(e),
                Ok(size_bytes) => Ok(MeasuredRestore { staged: self, ios_version, size_bytes }),
            },
        }
    }
}

impl MeasuredRestore {
    /// Takes in the prechecks: a restore goes on only where they pass.
    pub fn checked(self, report: Result<precheck::RestoreReport, CradleError>) -> (r: Result<
        CheckedRestore,
        RestoreStop,
    >)
        ensures
            match (report, r) {
                (Ok(p), Ok(c)) => p.allows() && c.staged == self.staged && c.device == p.device,
                (Ok(p), Err(RestoreStop::Obstacle(o))) => !p.allows() && stops(p, o),
                (Err(e), Err(RestoreStop::Unchecked(x))) => x == e,
                _ => false,
            },
    {
        match report {
            Err(e) => Err(RestoreStop::Unchecked(e)),
            Ok(p) => match restore_obstacle(&p) {
                Some(o) => Err(RestoreStop::Obstacle(o)),
                None => Ok(CheckedRestore { staged: self.staged, device: p.device }),
            },
        }
    }
}

impl CheckedRestore {
    /// Opens the run: the target is brought up to date where it is known.
    pub fn open_run(self, catalog: &mut Catalog, encrypted: bool, now: i64) -> (r: Result<
        OpenRestore,
        CradleError,
    >)
        requires
            old(catalog)@.wf(),
        ensures
            final(catalog)@.wf(),
            ({
                let ready = target_seen(old(catalog)@, self.device, encrypted, now);
                match r {
                    Ok(o) => {
                        &&& o.staged == self.staged
                        &&& o.run_id == old(catalog)@.last_run + 1
                        &&& has_device(ready.devices, self.staged.target@)
                        &&& final(catalog)@ == ready.started(
                            self.staged.target@,
                            RunKind::Restore,
                            now,
                        )
                    },
                    Err(e) => {
                        &&& final(catalog)@ == ready
                        &&& if old(catalog)@.last_run == i64::MAX {
                            e@ == table_full()
                        } else {
                            !has_device(ready.devices, self.staged.target@) && e@
                                == crate::catalog::reference_missing()
                        }
                    },
                }
            }),
    {
        if let Some(info) = &self.device {
            let record = device_record(info.udid.as_str(), info, encrypted);
            assert(crate::catalog::device_seen(record, now) == device_found(
                info.udid@,
                *info,
                encrypted,
                now,
            ));
            catalog.upsert_device(&record, now);
        }
        match catalog.start_run(self.staged.target.as_str(), RunKind::Restore, now) {
            Ok(run_id) => Ok(OpenRestore { staged: self.staged, run_id }),
            Err(e) => Err(e),
        }
    }
}

impl OpenRestore {
    /// Takes in the backup's password: the one given wins over the one stored.
    /// Where neither is to be had for an error, the run is closed.
    pub fn with_password(
        self,
        catalog: &mut Catalog,
        given: Option<String>,
        stored: Result<Option<String>, CradleError>,
        now: i64,
    ) -> (r: Result<(OpenRestore, Option<String>), CradleError>)
        requires
            old(catalog)@.wf(),
        ensures
            final(catalog)@.wf(),
            match (given, stored, r) {
                (Some(p), _, Ok(x)) => x == (self, Some(p)) && final(catalog)@ == old(catalog)@,
                (None, Ok(p), Ok(x)) => x == (self, p) && final(catalog)@ == old(catalog)@,
                (None, Err(e), Err(x)) => x == e && final(catalog)@ == run_failed(
                    old(catalog)@,
                    self.run_id,
                    e@,
                    0,
                    0,
                    now,
                ),
                _ => false,
            },
    {
        match given {
            Some(p) => Ok((self, Some(p))),
            None => match stored {
                Ok(p) => Ok((self, p)),
                Err(e) => {
                    let words = e.message();
                    catalog.finish_run(
                        self.run_id,
                        RunStatus::Failed,
                        0,
                        0,
                        Some(words.as_str()),
                        now,
                    );
                    Err(e)
                },
            },
        }
    }

    /// Takes in what came of the restore, and closes the run.
    pub fn finished(
        self,
        catalog: &mut Catalog,
        result: Result<restore::Outcome, CradleError>,
        reboot: bool,
        now: i64,
    ) -> (r: Result<RestoreSummary, CradleError>)
        requires
            old(catalog)@.wf(),
        ensures
            final(catalog)@.wf(),
            match (result, r) {
                (Ok(o), Ok(s)) => {
                    &&& s == (RestoreSummary {
                        target_udid: o.target_udid,
                        source_udid: self.staged.source,
                        rebooted: reboot,
                    })
                    &&& final(catalog)@ == old(catalog)@.run_ended(
                        self.run_id,
                        now,
                        RunStatus::Succeeded,
                        0,
                        0,
                        None,
                    )
                },
                (Err(e), Err(x)) => {
                    &&& x == e
                    &&& final(catalog)@ == run_failed(
                        old(catalog)@,
                        self.run_id,
                        e@,
                        0,
                        0,
                        now,
                    )
                },
                _ => false,
            },
    {
        match result {
            Ok(o) => {
                catalog.finish_run(self.run_id, RunStatus::Succeeded, 0, 0, None, now);
                Ok(
                    RestoreSummary {
                        target_udid: o.target_udid,
                        source_udid: self.staged.source,
                        rebooted: reboot,
                    },
                )
            },
            Err(e) => {
                let words = e.message();
                catalog.finish_run(self.run_id, RunStatus::Failed, 0, 0, Some(words.as_str()), now);
                Err(e)
            },
        }
    }
}

/// Once its restore came to an end, whichever way, a run is no longer running:
/// not where the restore succeeded, not where it failed, and not where its
/// password could not be looked up.
pub proof fn law_restore_does_not_stay_open(
    c: CatalogView,
    run_id: i64,
    source: ErrorView,
    now: i64,
    i: int,
)
    requires
        0 <= i < c.runs.len(),
        c.runs[i].id == run_id,
    ensures
        c.run_ended(run_id, now, RunStatus::Succeeded, 0, 0, None).runs[i].status
            != RunStatus::Running.word(),
        run_failed(c, run_id, source, 0, 0, now).runs[i].status != RunStatus::Running.word(),
        run_failed(c, run_id, source, 0, 0, now).runs[i].error == Some(source.text()),
{
    crate::catalog::law_words_tell_apart(
        RunStatus::Failed,
        RunStatus::Running,
        ArchiveState::Failed,
        ArchiveState::Pending,
    );
    crate::catalog::law_words_tell_apart(
        RunStatus::Succeeded,
        RunStatus::Running,
        ArchiveState::Failed,
        ArchiveState::Pending,
    );
}

/// A restore that came to its end leaves its run succeeded just when it
/// succeeded itself, and failed otherwise; nothing but that run changes.
pub proof fn law_restore_is_recorded(
    c: CatalogView,
    run_id: i64,
    source: ErrorView,
    now: i64,
    i: int,
)
    requires
        0 <= i < c.runs.len(),
    ensures
        ({
            let done = c.run_ended(run_id, now, RunStatus::Succeeded, 0, 0, None).runs[i];
            let lost = run_failed(c, run_id, source, 0, 0, now).runs[i];
            if c.runs[i].id == run_id {
                &&& done.status == RunStatus::Succeeded.word()
                &&& lost.status == RunStatus::Failed.word()
                &&& lost.error == Some(source.text())
                &&& done.status != lost.status
            } else {
                done == c.runs[i] && lost == c.runs[i]
            }
        }),
{
    crate::catalog::law_words_tell_apart(
        RunStatus::Failed,
        RunStatus::Succeeded,
        ArchiveState::Failed,
        ArchiveState::Pending,
    );
}

/// What verification made of a backup is recorded with its run: how it ended, what was
/// moved and what lies there, and the problems just where it failed.
pub proof fn law_backup_is_recorded(
    c: CatalogView,
    t: TransferredRun,
    gate: verify::Report,
    now: i64,
    i: int,
)
    requires
        0 <= i < c.runs.len(),
        gate.outcome == verify::Outcome::Invalid || snapshot_fits(
            c,
            t.run.udid@,
            t.run.run_id,
        ),
    ensures
        ({
            let run = recorded(c, t, gate, now).runs[i];
            &&& recorded(c, t, gate, now).runs.len() == c.runs.len()
            &&& if c.runs[i].id != t.run.run_id {
                run == c.runs[i]
            } else {
                &&& run.udid == c.runs[i].udid
                &&& run.kind == c.runs[i].kind
                &&& run.started_at == c.runs[i].started_at
                &&& run.ended_at == Some(now)
                &&& run.bytes == Some(t.outcome.bytes_transferred as i64)
                &&& run.files == Some(gate.files_on_disk as i64)
                &&& if gate.outcome == verify::Outcome::Invalid {
                    run.status == "failed"@ && run.error == Some(
                        joined_by(texts(gate.problems@), " "@),
                    )
                } else {
                    run.status == "succeeded"@ && run.error is None
                }
            }
        }),
{
}

/// The snapshot that a backup leaves is of its device and run, taken when it ended, of
/// the size that lies there and the version that the device had.
pub proof fn law_snapshot_is_recorded(
    c: CatalogView,
    t: TransferredRun,
    gate: verify::Report,
    now: i64,
)
    requires
        gate.outcome != verify::Outcome::Invalid,
        snapshot_fits(c, t.run.udid@, t.run.run_id),
    ensures
        ({
            let all = recorded(c, t, gate, now).snapshots;
            let s = all.last();
            &&& all.drop_last() == c.snapshots
            &&& s.id == c.last_snapshot + 1
            &&& s.udid == t.run.udid@
            &&& s.run_id == t.run.run_id
            &&& s.taken_at == now
            &&& s.size == gate.total_bytes as i64
            &&& s.ios_version == t.run.ios_version@
            &&& s.verified_at == (if gate.outcome == verify::Outcome::Verified {
                Some(now)
            } else {
                None
            })
        }),
{
    assert(recorded(c, t, gate, now).snapshots.drop_last() =~= c.snapshots);
}

/// A run that failed is recorded with what it had moved and why it failed; no other run
/// changes.
pub proof fn law_failure_is_recorded(
    c: CatalogView,
    run_id: i64,
    source: ErrorView,
    bytes: u64,
    files: u64,
    now: i64,
    i: int,
)
    requires
        0 <= i < c.runs.len(),
    ensures
        ({
            let run = run_failed(c, run_id, source, bytes, files, now).runs[i];
            if c.runs[i].id != run_id {
                run == c.runs[i]
            } else {
                &&& run.ended_at == Some(now)
                &&& run.status == "failed"@
                &&& run.bytes == Some(bytes as i64)
                &&& run.files == Some(files as i64)
                &&& run.error == Some(source.text())
            }
        }),
        run_failed(c, run_id, source, bytes, files, now).snapshots == c.snapshots,
{
}

/// A device is kept as it says it is, under the identifier it was asked for by.
pub proof fn law_device_found(udid: Seq<char>, info: DeviceInfo, encrypted: bool, now: i64)
    ensures
        ({
            let d = device_found(udid, info, encrypted, now);
            &&& d.udid == udid
            &&& d.name == info.name@
            &&& d.product_type == info.product_type@
            &&& d.ios_version == info.ios_version@
            &&& d.encrypted == encrypted
            &&& d.last_seen == now
        }),
{
}

/// Making ready for a backup leaves the device in the catalog as it was found, and
/// touches neither snapshots nor archives; a restore does so with its target where it
/// is known, and else changes nothing.
pub proof fn law_device_is_up_to_date(
    c: CatalogView,
    udid: Seq<char>,
    info: DeviceInfo,
    encrypted: bool,
    now: i64,
)
    requires
        c.wf(),
    ensures
        prepared(c, udid, info, encrypted, now).devices.contains(
            device_found(udid, info, encrypted, now),
        ),
        prepared(c, udid, info, encrypted, now).snapshots == c.snapshots,
        prepared(c, udid, info, encrypted, now).archives == c.archives,
        prepared(c, udid, info, encrypted, now).runs.len() == c.runs.len(),
        target_seen(c, Some(info), encrypted, now).devices.contains(
            device_found(info.udid@, info, encrypted, now),
        ),
        target_seen(c, Some(info), encrypted, now).runs == c.runs,
        target_seen(c, None, encrypted, now) == c,
{
    crate::catalog::law_seen_device_reads_back(
        c.runs_abandoned(udid, now),
        device_found(udid, info, encrypted, now),
    );
    crate::catalog::law_seen_device_reads_back(c, device_found(info.udid@, info, encrypted, now));
}

/// A failed pairing is reported in its own words, and where it has none, in these.
pub proof fn law_pairing_words(m: String)
    ensures
        pairing_words(Some(m)) == m@,
        pairing_words(None) == "Pairing check failed."@,
{
}

/// Of what stands in the way of a restore, pairing comes before Find My, that before an
/// older iOS, and that before space: there is just one kind that stops a report, and
/// none where it allows the restore.
pub proof fn law_one_thing_stops(report: precheck::RestoreReport, o: RestoreObstacle)
    requires
        stops(report, o),
    ensures
        !report.allows(),
        o is Pairing <==> !report.pairing_valid,
        o is FindMyEnabled <==> report.pairing_valid && !report.find_my_disabled,
        o is OlderIos <==> report.pairing_valid && report.find_my_disabled
            && !report.target_ios_ok,
        o is LittleSpace <==> report.pairing_valid && report.find_my_disabled
            && report.target_ios_ok && report.target_free_bytes is Some,
        o is SpaceUnknown <==> report.pairing_valid && report.find_my_disabled
            && report.target_ios_ok && report.target_free_bytes is None,
        o matches RestoreObstacle::LittleSpace { needed, free } ==> needed
            == report.backup_size_bytes && report.target_free_bytes == Some(free),
        o matches RestoreObstacle::OlderIos { target, backup } ==> backup@
            == report.backup_ios_version@ && (report.target_ios_version is Some ==> target@
            == report.target_ios_version->0@) && (report.target_ios_version is None ==> target@
            == "unknown"@),
{
}

/// What failed is shown in the words of its cause.
pub proof fn law_failures_in_words(e: CradleError, bytes: u64, files: u64, p: precheck::Report)
    ensures
        (WorkflowError::Failed {
            source: e,
            bytes_transferred: bytes,
            files_transferred: files,
        }).words() == e@.text(),
        WorkflowError::NotStarted(NotStartedReason::SetupFailed(e)).words() == e@.text(),
        WorkflowError::NotStarted(NotStartedReason::Precheck(Box::new(p))).words()
            == "prechecks failed"@,
        ArchiveError::Failed(e).words() == e@.text(),
        ArchiveError::Locked(e).words() == e@.text(),
        ArchiveError::NoVerifiedSnapshot.words() == "no verified snapshot yet"@,
{
}

/// An archive that found its source missing, or no longer verified, says of which
/// directory, or with which problems.
pub proof fn law_archive_failures_in_words(dir: String, gate: verify::Report)
    ensures
        ArchiveError::SourceMissing(dir).words() == "backup directory "@ + dir@ + " not found"@,
        ArchiveError::NoLongerVerified(gate).words() == "no longer verifies: "@ + joined_by(
            texts(gate.problems@),
            " "@,
        ),
{
}

} // verus!
