//! What the desktop application lists, decides and says.
use vstd::prelude::*;

use crate::archive::{self, ResticSnapshot};
use crate::backup::RetryReason;
use crate::binary64::gigabytes;
use crate::catalog::{
    archives_listed, devices_listed, maybe, runs_listed, snapshots_listed, verified_listed,
    ArchiveRecord, ArchiveView, Catalog, DestinationView, DeviceRow, DeviceView, RunView,
    SnapshotView,
};
use crate::cli::{
    older_ios, older_ios_message, too_small, too_small_message, transport_name, transport_word,
    EMPTY_NOT_STORED, FIND_MY_ON, SPACE_UNKNOWN, TARGET_SPACE_UNKNOWN,
};
use crate::error::CradleError;
use crate::libimobiledevice::{AttachedDevice, DeviceInfo};
use crate::paths::{
    base, default_scratch_dir, default_working_dir, file_name, join, joined, opt_text,
};
use crate::precheck::{self, MIN_FREE_BYTES};
use crate::restore::source_udid_from_staged_dir;
use crate::rows::{kept_contains, kept_is_filtered, lemma_listed, views};
use crate::text::{
    decimal, decimal_text, join_by, joined_by, law_strip, same_text, strip_prefix, texts, trim,
    trimmed, without_prefix,
};
use crate::verify;
use crate::workflow::{backup_obstacle, ArchiveError, BackupObstacle, BackupOutcome, RestoreObstacle};

verus! {

// --- directories -----------------------------------------------------------------------------

/// A path in which a leading `~` stands for the home directory, where there is
/// one.
pub open spec fn expanded(path: Seq<char>, home: Option<Seq<char>>) -> Seq<char> {
    let rest = match strip_prefix(path, "~/"@) {
        Some(rest) => Some(rest),
        None => if path == "~"@ {
            Some(""@)
        } else {
            None
        },
    };
    match (rest, home) {
        (Some(rest), Some(h)) => joined(h, rest),
        _ => path,
    }
}

/// A path in which a leading `~` stands for the home directory.
pub fn expand_tilde(path: &str, home: Option<&str>) -> (out: String)
    ensures
        out@ == expanded(path@, opt_text(home)),
{
    match without_prefix(path, "~/") {
        Some(rest) => match home {
            Some(h) => join(h, rest.as_str()),
            None => path.to_owned(),
        },
        None => if same_text(path, "~") {
            match home {
                Some(h) => join(h, ""),
                None => path.to_owned(),
            }
        } else {
            path.to_owned()
        },
    }
}

/// The directory that was chosen, blanks around it aside, or else `default`.
pub open spec fn chosen(
    dir: Option<Seq<char>>,
    home: Option<Seq<char>>,
    default: Seq<char>,
) -> Seq<char> {
    match dir {
        Some(d) => if trim(d).len() > 0 {
            expanded(trim(d), home)
        } else {
            default
        },
        None => default,
    }
}

/// The directory that was chosen, or else `default`.
fn choose_dir(dir: Option<&str>, home: Option<&str>, default: String) -> (out: String)
    ensures
        out@ == chosen(opt_text(dir), opt_text(home), default@),
{
    match dir {
        Some(d) => {
            let d = trimmed(d);
            if d.as_str().unicode_len() > 0 {
                expand_tilde(d.as_str(), home)
            } else {
                default
            }
        },
        None => default,
    }
}

/// Where backups are kept.
pub fn resolve_working_dir(working_dir: Option<&str>, home: Option<&str>, temp: &str) -> (out:
    String)
    ensures
        out@ == chosen(
            opt_text(working_dir),
            opt_text(home),
            joined(base(opt_text(home), temp@), "working"@),
        ),
{
    choose_dir(working_dir, home, default_working_dir(home, temp))
}

/// Where restores are staged.
pub fn resolve_scratch_dir(scratch_dir: Option<&str>, home: Option<&str>, temp: &str) -> (out:
    String)
    ensures
        out@ == chosen(
            opt_text(scratch_dir),
            opt_text(home),
            joined(base(opt_text(home), temp@), "scratch"@),
        ),
{
    choose_dir(scratch_dir, home, default_scratch_dir(home, temp))
}

// --- devices ---------------------------------------------------------------------------------

/// An attached device.
#[derive(Debug)]
pub struct DeviceEntry {
    pub udid: String,
    pub transport: &'static str,
    pub name: Option<String>,
    pub product_type: Option<String>,
    pub ios_version: Option<String>,
    pub reachable: bool,
    pub pairing_message: Option<String>,
    pub encryption_enabled: bool,
    pub last_backup_at: Option<i64>,
}

/// When the latest of these snapshots was taken.
pub open spec fn latest_taken(listed: Seq<SnapshotView>) -> Option<i64> {
    if listed.len() > 0 {
        Some(listed[0].taken_at)
    } else {
        None
    }
}

/// An attached device. Whether it encrypts its backups is asked of one that
/// answers only; its last backup is the latest verified snapshot.
pub fn device_entry(
    catalog: &Catalog,
    attached: AttachedDevice,
    info: Result<DeviceInfo, CradleError>,
    will_encrypt: bool,
) -> (d: DeviceEntry)
    ensures
        d.udid == attached.udid,
        d.transport@ == transport_word(attached.transport),
        d.reachable == info.is_ok(),
        d.last_backup_at == latest_taken(verified_listed(catalog@.snapshots, attached.udid@)),
        match info {
            Ok(i) => {
                &&& d.name == Some(i.name)
                &&& d.product_type == Some(i.product_type)
                &&& d.ios_version == Some(i.ios_version)
                &&& d.pairing_message is None
                &&& d.encryption_enabled == will_encrypt
            },
            Err(e) => {
                &&& d.name is None
                &&& d.product_type is None
                &&& d.ios_version is None
                &&& (d.pairing_message matches Some(words) && words@ == e@.text())
                &&& !d.encryption_enabled
            },
        },
{
    let last_backup_at = match catalog.latest_verified_snapshot(attached.udid.as_str()) {
        Some(s) => Some(s.taken_at),
        None => None,
    };
    let transport = transport_name(attached.transport);
    match info {
        Ok(i) => DeviceEntry {
            udid: attached.udid,
            transport,
            name: Some(i.name),
            product_type: Some(i.product_type),
            ios_version: Some(i.ios_version),
            reachable: true,
            pairing_message: None,
            encryption_enabled: will_encrypt,
            last_backup_at,
        },
        Err(e) => DeviceEntry {
            udid: attached.udid,
            transport,
            name: None,
            product_type: None,
            ios_version: None,
            reachable: false,
            pairing_message: Some(e.message()),
            encryption_enabled: false,
            last_backup_at,
        },
    }
}

// --- passwords -------------------------------------------------------------------------------

/// What is said where there is no backup to try a password on.
pub const NO_BACKUP: &'static str = "No backup found for this device yet — back it up first.";

/// What is said where the catalog knows no backup to try a password on.
pub const NO_SNAPSHOT: &'static str = "No recorded snapshot for this device yet — back it up first.";

/// What came of trying a password on a backup.
#[derive(Debug)]
pub struct PasswordVerifyResult {
    pub verified: bool,
    pub files: u64,
    pub bytes: u64,
    pub problems: Vec<String>,
}

/// The snapshot to try a password on: the latest one of the device.
pub fn password_candidate(catalog: &Catalog, udid: &str, password: &str, is_dir: bool) -> (r:
    Result<i64, &'static str>)
    ensures
        ({
            let listed = snapshots_listed(catalog@.snapshots, udid@);
            match r {
                Ok(id) => password@.len() > 0 && is_dir && listed.len() > 0 && id == listed[0].id,
                Err(m) => if password@.len() == 0 {
                    m@ == EMPTY_NOT_STORED@
                } else if !is_dir {
                    m@ == NO_BACKUP@
                } else {
                    listed.len() == 0 && m@ == NO_SNAPSHOT@
                },
            }
        }),
{
    if password.unicode_len() == 0 {
        return Err(EMPTY_NOT_STORED);
    }
    if !is_dir {
        return Err(NO_BACKUP);
    }
    match catalog.latest_snapshot(udid) {
        Some(s) => Ok(s.id),
        None => Err(NO_SNAPSHOT),
    }
}

/// Takes in what verifying a backup with a password found. One that verifies
/// is marked as verified, once the password is stored; where the backup does
/// not verify, `stored` plays no part.
pub fn password_tried(
    catalog: &mut Catalog,
    snapshot_id: i64,
    report: verify::Report,
    stored: Result<(), CradleError>,
    now: i64,
) -> (r: Result<PasswordVerifyResult, String>)
    requires
        old(catalog)@.wf(),
    ensures
        final(catalog)@.wf(),
        match r {
            Ok(p) => {
                &&& p == (PasswordVerifyResult {
                    verified: report.outcome == verify::Outcome::Verified,
                    files: report.files_on_disk,
                    bytes: report.total_bytes,
                    problems: report.problems,
                })
                &&& p.verified ==> stored is Ok
                &&& final(catalog)@ == (if p.verified {
                    old(catalog)@.marked_verified(snapshot_id, now)
                } else {
                    old(catalog)@
                })
            },
            Err(m) => {
                &&& report.outcome == verify::Outcome::Verified
                &&& (stored matches Err(e) && m@ == e@.text())
                &&& final(catalog)@ == old(catalog)@
            },
        },
{
    let verified = report.passed();
    if verified {
        if let Err(e) = stored {
            return Err(e.message());
        }
        catalog.mark_snapshot_verified(snapshot_id, now);
    }
    Ok(
        PasswordVerifyResult {
            verified,
            files: report.files_on_disk,
            bytes: report.total_bytes,
            problems: report.problems,
        },
    )
}

// --- backup ----------------------------------------------------------------------------------

/// What came of a backup.
#[derive(Debug)]
pub struct BackupSummary {
    pub backup_dir: String,
    pub files: u64,
    pub bytes: u64,
    pub verified: bool,
    pub manifest_integrity_checked: bool,
    pub needs_password: bool,
    pub problems: Vec<String>,
}

/// What is said of a backup whose password is missing.
pub const NEEDS_PASSWORD: &'static str = "No stored backup password — Manifest.db integrity was never checked, so this cannot be archived yet. Set a backup password, then back up again to verify it.";

/// What is said of a device that does not encrypt its backups.
pub const ENCRYPTION_OFF: &'static str = "Backup encryption is off on this device. Use the \"Set backup password\" panel to turn it on before continuing — without it, Keychain, Health, call history and saved passwords are silently omitted from the backup.";

/// What came of a backup.
pub fn backup_summary(o: BackupOutcome) -> (s: BackupSummary)
    ensures
        s.backup_dir == o.backup_dir,
        s.files == o.gate.files_on_disk,
        s.bytes == o.gate.total_bytes,
        s.verified == (o.gate.outcome == verify::Outcome::Verified),
        s.manifest_integrity_checked == o.gate.manifest_integrity_checked,
        s.needs_password == (o.gate.outcome == verify::Outcome::NeedsPassword),
        texts(s.problems@) == (match o.gate.outcome {
            verify::Outcome::Verified => seq![],
            verify::Outcome::NeedsPassword => seq![NEEDS_PASSWORD@],
            verify::Outcome::Invalid => texts(o.gate.problems@),
        }),
{
    let outcome = o.gate.outcome;
    let problems: Vec<String> = match outcome {
        verify::Outcome::Verified => Vec::new(),
        verify::Outcome::NeedsPassword => {
            let mut v: Vec<String> = Vec::new();
            v.push(NEEDS_PASSWORD.to_owned());
            v
        },
        verify::Outcome::Invalid => o.gate.problems,
    };
    proof {
        match outcome {
            verify::Outcome::Verified => {
                assert(texts(problems@) =~= seq![]);
            },
            verify::Outcome::NeedsPassword => {
                assert(texts(problems@) =~= seq![NEEDS_PASSWORD@]);
            },
            verify::Outcome::Invalid => {},
        }
    }
    BackupSummary {
        backup_dir: o.backup_dir,
        files: o.gate.files_on_disk,
        bytes: o.gate.total_bytes,
        verified: outcome == verify::Outcome::Verified,
        manifest_integrity_checked: o.gate.manifest_integrity_checked,
        needs_password: outcome == verify::Outcome::NeedsPassword,
        problems,
    }
}

/// The word for why a backup is tried again.
pub fn retry_word(reason: RetryReason) -> (s: &'static str)
    ensures
        s@ == (match reason {
            RetryReason::DeviceLocked => "device_locked"@,
            RetryReason::HostIo => "host_io"@,
            RetryReason::Stalled => "stalled"@,
        }),
{
    match reason {
        RetryReason::DeviceLocked => "device_locked",
        RetryReason::HostIo => "host_io",
        RetryReason::Stalled => "stalled",
    }
}

/// Why a backup does not start.
pub open spec fn backup_refused(report: precheck::Report) -> Seq<char> {
    if !report.pairing_valid {
        crate::workflow::pairing_words(report.pairing_message)
    } else if !report.encryption_enabled {
        ENCRYPTION_OFF@
    } else {
        match report.free_space_bytes {
            Some(bytes) => "Only "@ + decimal(bytes as nat)
                + " bytes free on the working volume; want at least "@ + decimal(
                MIN_FREE_BYTES as nat,
            ) + " bytes before starting a backup."@,
            None => SPACE_UNKNOWN@,
        }
    }
}

/// Why a backup does not start.
pub fn backup_refusal(report: &precheck::Report) -> (s: String)
    requires
        !report.allows(),
    ensures
        s@ == backup_refused(*report),
{
    match backup_obstacle(report) {
        Some(BackupObstacle::Pairing(m)) => m,
        Some(BackupObstacle::EncryptionOff) => ENCRYPTION_OFF.to_owned(),
        Some(BackupObstacle::LittleSpace(bytes)) => "Only ".to_owned().concat(
            decimal_text(bytes).as_str(),
        ).concat(" bytes free on the working volume; want at least ").concat(
            decimal_text(MIN_FREE_BYTES).as_str(),
        ).concat(" bytes before starting a backup."),
        _ => SPACE_UNKNOWN.to_owned(),
    }
}

// --- what is listed --------------------------------------------------------------------------

/// A run of a device.
#[derive(Debug)]
pub struct HistoryEntry {
    pub id: i64,
    pub kind: String,
    pub status: String,
    pub started_at: i64,
    pub ended_at: Option<i64>,
    pub bytes: Option<i64>,
    pub files: Option<i64>,
    pub error: Option<String>,
}

/// Whether an entry shows a run.
pub open spec fn shows_run(e: HistoryEntry, r: RunView) -> bool {
    &&& e.id == r.id
    &&& e.kind@ == r.kind
    &&& e.status@ == r.status
    &&& e.started_at == r.started_at
    &&& e.ended_at == r.ended_at
    &&& e.bytes == r.bytes
    &&& e.files == r.files
    &&& maybe(e.error) == r.error
}

/// The runs of a device, the latest first.
pub fn get_history(catalog: &Catalog, udid: &str) -> (out: Vec<HistoryEntry>)
    ensures
        ({
            let listed = runs_listed(catalog@.runs, udid@);
            &&& out@.len() == listed.len()
            &&& forall|i: int| 0 <= i < listed.len() ==> shows_run(#[trigger] out@[i], listed[i])
        }),
{
    let runs = catalog.list_runs(udid);
    let ghost listed = views(runs@);
    let mut out: Vec<HistoryEntry> = Vec::new();
    let mut i: usize = 0;
    while i < runs.len()
        invariant
            i <= runs@.len(),
            listed == views(runs@),
            out@.len() == i,
            forall|k: int| 0 <= k < i ==> shows_run(#[trigger] out@[k], listed[k]),
        decreases runs@.len() - i,
    {
        let r = runs[i].copy();
        assert(r@ == listed[i as int]);
        out.push(
            HistoryEntry {
                id: r.id,
                kind: r.kind,
                status: r.status,
                started_at: r.started_at,
                ended_at: r.ended_at,
                bytes: r.bytes,
                files: r.files,
                error: r.error,
            },
        );
        i = i + 1;
    }
    out
}

/// A destination.
#[derive(Debug)]
pub struct DestinationEntry {
    pub name: String,
    pub kind: String,
    pub uri: String,
}

/// Whether an entry shows a destination.
pub open spec fn shows_destination(e: DestinationEntry, d: DestinationView) -> bool {
    e.name@ == d.name && e.kind@ == d.kind && e.uri@ == d.uri
}

/// The destinations, in the order of their names.
pub fn list_destinations(catalog: &Catalog) -> (out: Vec<DestinationEntry>)
    ensures
        ({
            let listed = crate::catalog::by_name(catalog@.destinations);
            &&& out@.len() == listed.len()
            &&& forall|i: int|
                0 <= i < listed.len() ==> shows_destination(#[trigger] out@[i], listed[i])
        }),
{
    let all = catalog.list_destinations();
    let ghost listed = views(all@);
    let mut out: Vec<DestinationEntry> = Vec::new();
    let mut i: usize = 0;
    while i < all.len()
        invariant
            i <= all@.len(),
            listed == views(all@),
            out@.len() == i,
            forall|k: int| 0 <= k < i ==> shows_destination(#[trigger] out@[k], listed[k]),
        decreases all@.len() - i,
    {
        let d = all[i].copy();
        assert(d@ == listed[i as int]);
        out.push(DestinationEntry { name: d.name, kind: d.kind, uri: d.uri });
        i = i + 1;
    }
    out
}

/// A snapshot that a destination holds.
#[derive(Debug)]
pub struct ArchiveSnapshotEntry {
    pub id: String,
    pub short_id: String,
    pub time: String,
    pub source_udid: Option<String>,
    pub source_name: Option<String>,
}

/// What the first of the devices with this identifier is called.
pub open spec fn name_of(devices: Seq<DeviceView>, udid: Seq<char>) -> Option<Seq<char>>
    decreases devices.len(),
{
    if devices.len() == 0 {
        None
    } else if devices[0].udid == udid {
        Some(devices[0].name)
    } else {
        name_of(devices.skip(1), udid)
    }
}

/// What the first of the devices with this identifier is called.
fn find_name(devices: &Vec<DeviceRow>, udid: &str) -> (r: Option<String>)
    ensures
        maybe(r) == name_of(views(devices@), udid@),
{
    let ghost all = views(devices@);
    let mut i: usize = 0;
    assert(all.skip(0) =~= all);
    while i < devices.len()
        invariant
            i <= devices@.len(),
            all == views(devices@),
            name_of(all, udid@) == name_of(all.skip(i as int), udid@),
        decreases devices@.len() - i,
    {
        assert(all[i as int] == devices@[i as int]@);
        assert(all.skip(i as int)[0] == all[i as int]);
        if same_text(devices[i].record.udid.as_str(), udid) {
            return Some(devices[i].record.name.clone());
        }
        assert(all.skip(i as int).skip(1) =~= all.skip(i + 1));
        i = i + 1;
    }
    None
}

/// The device that an archived snapshot was made of: what the first of its
/// directories is called.
pub open spec fn snapshot_source(s: ResticSnapshot) -> Option<Seq<char>> {
    if s.paths@.len() > 0 {
        file_name(s.paths@[0]@)
    } else {
        None
    }
}

/// Whether an entry shows an archived snapshot.
pub open spec fn shows_archived(
    e: ArchiveSnapshotEntry,
    s: ResticSnapshot,
    devices: Seq<DeviceView>,
) -> bool {
    &&& e.id@ == s.id@
    &&& e.short_id@ == s.short_id@
    &&& e.time@ == s.time@
    &&& maybe(e.source_udid) == snapshot_source(s)
    &&& maybe(e.source_name) == (match snapshot_source(s) {
        Some(udid) => name_of(devices, udid),
        None => None,
    })
}

/// What a destination holds, with the device that each snapshot was made of
/// and its name where it is known.
pub fn list_archive_snapshots(catalog: &Catalog, snapshots: &Vec<ResticSnapshot>) -> (out: Vec<
    ArchiveSnapshotEntry,
>)
    ensures
        out@.len() == snapshots@.len(),
        forall|i: int|
            0 <= i < out@.len() ==> shows_archived(
                #[trigger] out@[i],
                snapshots@[i],
                devices_listed(catalog@.devices),
            ),
{
    let devices = catalog.list_devices();
    let mut out: Vec<ArchiveSnapshotEntry> = Vec::new();
    let mut i: usize = 0;
    while i < snapshots.len()
        invariant
            i <= snapshots@.len(),
            out@.len() == i,
            views(devices@) == devices_listed(catalog@.devices),
            forall|k: int|
                0 <= k < i ==> shows_archived(
                    #[trigger] out@[k],
                    snapshots@[k],
                    devices_listed(catalog@.devices),
                ),
        decreases snapshots@.len() - i,
    {
        let s = &snapshots[i];
        let source_udid = if s.paths.len() > 0 {
            source_udid_from_staged_dir(s.paths[0].as_str())
        } else {
            None
        };
        let source_name = match &source_udid {
            Some(udid) => find_name(&devices, udid.as_str()),
            None => None,
        };
        out.push(
            ArchiveSnapshotEntry {
                id: s.id.clone(),
                short_id: s.short_id.clone(),
                time: s.time.clone(),
                source_udid,
                source_name,
            },
        );
        i = i + 1;
    }
    out
}

/// A device that a restore can take a backup of.
#[derive(Debug)]
pub struct RestoreSourceEntry {
    pub udid: String,
    pub name: String,
    pub product_type: String,
    pub ios_version: String,
    pub has_local_backup: bool,
}

/// Whether an entry shows a device.
pub open spec fn shows_source(e: RestoreSourceEntry, d: DeviceView, local: bool) -> bool {
    &&& e.udid@ == d.udid
    &&& e.name@ == d.name
    &&& e.product_type@ == d.product_type
    &&& e.ios_version@ == d.ios_version
    &&& e.has_local_backup == local
}

/// The devices a restore can take a backup of. `is_dir` tells of each device
/// that the catalog lists, in that order, whether its backup is there.
pub fn list_restore_sources(catalog: &Catalog, is_dir: &Vec<bool>) -> (out: Vec<
    RestoreSourceEntry,
>)
    requires
        is_dir@.len() == devices_listed(catalog@.devices).len(),
    ensures
        ({
            let listed = devices_listed(catalog@.devices);
            &&& out@.len() == listed.len()
            &&& forall|i: int|
                0 <= i < listed.len() ==> shows_source(
                    #[trigger] out@[i],
                    listed[i],
                    is_dir@[i],
                )
        }),
{
    let devices = catalog.list_devices();
    let ghost listed = views(devices@);
    let mut out: Vec<RestoreSourceEntry> = Vec::new();
    let mut i: usize = 0;
    while i < devices.len()
        invariant
            i <= devices@.len(),
            devices@.len() == is_dir@.len(),
            listed == views(devices@),
            out@.len() == i,
            forall|k: int|
                0 <= k < i ==> shows_source(#[trigger] out@[k], listed[k], is_dir@[k]),
        decreases devices@.len() - i,
    {
        let d = devices[i].copy();
        assert(d@ == listed[i as int]);
        out.push(
            RestoreSourceEntry {
                udid: d.record.udid,
                name: d.record.name,
                product_type: d.record.product_type,
                ios_version: d.record.ios_version,
                has_local_backup: is_dir[i],
            },
        );
        i = i + 1;
    }
    out
}

/// A backup in the working directory.
#[derive(Debug)]
pub struct LocalBackupEntry {
    pub udid: String,
    pub name: String,
    pub product_type: String,
    pub ios_version: String,
    pub size_bytes: Option<i64>,
    pub last_backup_at: Option<i64>,
    pub archived: bool,
}

/// A [`LocalBackupEntry`] with its texts as sequences of characters.
pub struct LocalBackupView {
    pub udid: Seq<char>,
    pub name: Seq<char>,
    pub product_type: Seq<char>,
    pub ios_version: Seq<char>,
    pub size_bytes: Option<i64>,
    pub last_backup_at: Option<i64>,
    pub archived: bool,
}

impl View for LocalBackupEntry {
    type V = LocalBackupView;

    open spec fn view(&self) -> LocalBackupView {
        LocalBackupView {
            udid: self.udid@,
            name: self.name@,
            product_type: self.product_type@,
            ios_version: self.ios_version@,
            size_bytes: self.size_bytes,
            last_backup_at: self.last_backup_at,
            archived: self.archived,
        }
    }
}

/// Whether one of the archives succeeded.
pub open spec fn any_succeeded(archives: Seq<ArchiveView>) -> bool {
    exists|i: int| 0 <= i < archives.len() && (#[trigger] archives[i]).state == "succeeded"@
}

/// Whether one of the archives succeeded.
fn has_succeeded(archives: &Vec<ArchiveRecord>) -> (r: bool)
    ensures
        r == any_succeeded(views(archives@)),
{
    let ghost all = views(archives@);
    let mut i: usize = 0;
    while i < archives.len()
        invariant
            i <= archives@.len(),
            all == views(archives@),
            forall|k: int| 0 <= k < i ==> (#[trigger] all[k]).state != "succeeded"@,
        decreases archives@.len() - i,
    {
        assert(all[i as int] == archives@[i as int]@);
        if same_text(archives[i].state.as_str(), "succeeded") {
            return true;
        }
        i = i + 1;
    }
    false
}

/// The backup of a device in the working directory: what its latest snapshot
/// says, and whether that was archived.
pub open spec fn local_backup(
    d: DeviceView,
    snapshots: Seq<SnapshotView>,
    archives: Seq<ArchiveView>,
) -> LocalBackupView {
    let listed = snapshots_listed(snapshots, d.udid);
    LocalBackupView {
        udid: d.udid,
        name: d.name,
        product_type: d.product_type,
        ios_version: d.ios_version,
        size_bytes: if listed.len() > 0 {
            Some(listed[0].size)
        } else {
            None
        },
        last_backup_at: latest_taken(listed),
        archived: listed.len() > 0 && any_succeeded(archives_listed(archives, listed[0].id)),
    }
}

/// The backups in the working directory of the devices whose backup is there.
pub open spec fn local_backups(
    devices: Seq<DeviceView>,
    is_dir: Seq<bool>,
    snapshots: Seq<SnapshotView>,
    archives: Seq<ArchiveView>,
) -> Seq<LocalBackupView>
    decreases devices.len(),
{
    if devices.len() == 0 {
        seq![]
    } else {
        let rest = local_backups(devices.drop_last(), is_dir, snapshots, archives);
        if is_dir[devices.len() - 1] {
            rest.push(local_backup(devices.last(), snapshots, archives))
        } else {
            rest
        }
    }
}

/// The backup of a device in the working directory.
fn local_entry(catalog: &Catalog, d: &DeviceRow) -> (e: LocalBackupEntry)
    ensures
        e@ == local_backup(d@, catalog@.snapshots, catalog@.archives),
{
    let (size_bytes, last_backup_at, archived) = match catalog.latest_snapshot(
        d.record.udid.as_str(),
    ) {
        Some(s) => (
            Some(s.size),
            Some(s.taken_at),
            has_succeeded(&catalog.list_archives_for_snapshot(s.id)),
        ),
        None => (None, None, false),
    };
    LocalBackupEntry {
        udid: d.record.udid.clone(),
        name: d.record.name.clone(),
        product_type: d.record.product_type.clone(),
        ios_version: d.record.ios_version.clone(),
        size_bytes,
        last_backup_at,
        archived,
    }
}

/// The backups in the working directory. `is_dir` tells of each device that
/// the catalog lists, in that order, whether its backup is there.
pub fn list_local_backups(catalog: &Catalog, is_dir: &Vec<bool>) -> (out: Vec<LocalBackupEntry>)
    requires
        is_dir@.len() == devices_listed(catalog@.devices).len(),
    ensures
        views(out@) == local_backups(
            devices_listed(catalog@.devices),
            is_dir@,
            catalog@.snapshots,
            catalog@.archives,
        ),
{
    let devices = catalog.list_devices();
    let ghost listed = views(devices@);
    let mut out: Vec<LocalBackupEntry> = Vec::new();
    let mut i: usize = 0;
    assert(views(out@) =~= local_backups(
        listed.take(0),
        is_dir@,
        catalog@.snapshots,
        catalog@.archives,
    ));
    while i < devices.len()
        invariant
            i <= devices@.len(),
            devices@.len() == is_dir@.len(),
            listed == views(devices@),
            views(out@) == local_backups(
                listed.take(i as int),
                is_dir@,
                catalog@.snapshots,
                catalog@.archives,
            ),
        decreases devices@.len() - i,
    {
        broadcast use crate::rows::views_push;

        assert(listed.take(i + 1).drop_last() =~= listed.take(i as int));
        assert(listed.take(i + 1).last() == devices@[i as int]@);
        if is_dir[i] {
            out.push(local_entry(catalog, &devices[i]));
        }
        i = i + 1;
    }
    assert(listed.take(i as int) =~= listed);
    out
}

/// What is said where there is no backup to delete.
pub const NO_LOCAL_BACKUP: &'static str = "No local backup found for this device.";

/// Refuses to delete a backup that is not there.
pub fn require_local_backup(is_dir: bool) -> (r: Result<(), &'static str>)
    ensures
        match r {
            Ok(()) => is_dir,
            Err(m) => !is_dir && m@ == NO_LOCAL_BACKUP@,
        },
{
    if is_dir {
        Ok(())
    } else {
        Err(NO_LOCAL_BACKUP)
    }
}

// --- archive ---------------------------------------------------------------------------------

/// What came of archiving.
#[derive(Debug)]
pub struct ArchiveSummary {
    pub snapshot_id: String,
    pub data_added: u64,
    pub total_bytes_processed: u64,
    pub total_files_processed: u64,
}

/// What came of archiving.
pub fn archive_summary(s: archive::BackupSummary) -> (r: ArchiveSummary)
    ensures
        r == (ArchiveSummary {
            snapshot_id: s.snapshot_id,
            data_added: s.data_added,
            total_bytes_processed: s.total_bytes_processed,
            total_files_processed: s.total_files_processed,
        }),
{
    ArchiveSummary {
        snapshot_id: s.snapshot_id,
        data_added: s.data_added,
        total_bytes_processed: s.total_bytes_processed,
        total_files_processed: s.total_files_processed,
    }
}

/// What is said of a backup whose password is missing when it is archived.
pub const ARCHIVE_NEEDS_PASSWORD: &'static str = "Re-checking right before archiving found no stored backup password, so the current contents can't be confirmed — set a backup password and back up again to get a verified snapshot.";

/// Why nothing was archived.
pub open spec fn archive_refused(udid: Seq<char>, e: ArchiveError) -> Seq<char> {
    match e {
        ArchiveError::NoVerifiedSnapshot => "No verified snapshot for "@ + udid
            + " yet — back it up first."@,
        ArchiveError::SourceMissing(dir) => "Backup directory "@ + dir@
            + " not found — was it moved since the last backup?"@,
        ArchiveError::NoLongerVerified(gate) => if gate.outcome
            == verify::Outcome::NeedsPassword {
            ARCHIVE_NEEDS_PASSWORD@
        } else {
            "Re-checking right before archiving found it no longer verifies, even though an earlier backup for "@
                + udid
                + " was verified — something has changed it since (a newer backup run, most likely). Not archiving it:\n"@
                + joined_by(texts(gate.problems@), "\n"@)
        },
        ArchiveError::Locked(e) => e@.text(),
        ArchiveError::Failed(e) => e@.text(),
    }
}

/// Why nothing was archived.
pub fn archive_refusal(udid: &str, e: &ArchiveError) -> (s: String)
    ensures
        s@ == archive_refused(udid@, *e),
{
    match e {
        ArchiveError::NoVerifiedSnapshot => "No verified snapshot for ".to_owned().concat(
            udid,
        ).concat(" yet — back it up first."),
        ArchiveError::SourceMissing(dir) => "Backup directory ".to_owned().concat(
            dir.as_str(),
        ).concat(" not found — was it moved since the last backup?"),
        ArchiveError::NoLongerVerified(gate) => if gate.outcome
            == verify::Outcome::NeedsPassword {
            ARCHIVE_NEEDS_PASSWORD.to_owned()
        } else {
            "Re-checking right before archiving found it no longer verifies, even though an earlier backup for ".to_owned().concat(
            udid).concat(
                " was verified — something has changed it since (a newer backup run, most likely). Not archiving it:\n",
            ).concat(join_by(&gate.problems, "\n").as_str())
        },
        ArchiveError::Locked(e) => e.message(),
        ArchiveError::Failed(e) => e.message(),
    }
}

// --- restore ---------------------------------------------------------------------------------

/// What came of a restore.
#[derive(Debug)]
pub struct RestoreSummary {
    pub target_udid: String,
    pub source_udid: String,
    pub rebooted: bool,
}

/// Why a restore does not start.
pub open spec fn restore_refused(o: RestoreObstacle) -> Seq<char> {
    match o {
        RestoreObstacle::Pairing(m) => m@,
        RestoreObstacle::FindMyEnabled => FIND_MY_ON@,
        RestoreObstacle::OlderIos { target, backup } => older_ios(target@, backup@),
        RestoreObstacle::LittleSpace { needed, free } => too_small(needed, free)
            + "Free up space on the device (or delete some apps/media) and try again."@,
        RestoreObstacle::SpaceUnknown => TARGET_SPACE_UNKNOWN@,
    }
}

/// Why a restore does not start.
pub fn restore_refusal(o: RestoreObstacle) -> (s: String)
    ensures
        s@ == restore_refused(o),
{
    match o {
        RestoreObstacle::Pairing(m) => m,
        RestoreObstacle::FindMyEnabled => FIND_MY_ON.to_owned(),
        RestoreObstacle::OlderIos { target, backup } => older_ios_message(
            target.as_str(),
            backup.as_str(),
        ),
        RestoreObstacle::LittleSpace { needed, free } => too_small_message(needed, free).concat(
            "Free up space on the device (or delete some apps/media) and try again.",
        ),
        RestoreObstacle::SpaceUnknown => TARGET_SPACE_UNKNOWN.to_owned(),
    }
}

// --- laws ------------------------------------------------------------------------------------

/// A leading `~` is the home directory, alone or before a slash; every other path, and
/// every path where there is no home, stays as it is.
pub proof fn law_tilde(rest: Seq<char>, home: Seq<char>, path: Seq<char>)
    ensures
        expanded("~/"@ + rest, Some(home)) == joined(home, rest),
        expanded("~"@, Some(home)) == joined(home, seq![]),
        expanded(path, None) == path,
        path != "~"@ && !(path.len() >= 2 && path[0] == '~' && path[1] == '/') ==> expanded(
            path,
            Some(home),
        ) == path,
{
    reveal_strlit("~/");
    reveal_strlit("~");
    reveal_strlit("");
    assert(""@ =~= seq![]);
    law_strip("~/"@ + rest, "~/"@);
    law_strip("~"@, "~/"@);
    law_strip(path, "~/"@);
    let p = "~/"@ + rest;
    assert(p.take(2) =~= "~/"@);
    assert(p.skip(2) =~= rest);
    if path.len() >= 2 {
        if path.take(2) == "~/"@ {
            assert(path.take(2)[0] == '~' && path.take(2)[1] == '/');
        }
    }
}

/// A directory that was chosen counts without the blanks around it; one that is only
/// blanks, or none, leaves the default.
pub proof fn law_chosen(dir: Seq<char>, home: Option<Seq<char>>, default: Seq<char>)
    ensures
        chosen(None, home, default) == default,
        trim(dir).len() == 0 ==> chosen(Some(dir), home, default) == default,
        trim(dir).len() > 0 ==> chosen(Some(dir), home, default) == expanded(trim(dir), home),
{
}

/// The last backup is the first of the snapshots listed.
pub proof fn law_latest_taken(listed: Seq<SnapshotView>)
    ensures
        listed.len() == 0 <==> latest_taken(listed) is None,
        listed.len() > 0 ==> latest_taken(listed) == Some(listed[0].taken_at),
{
}

/// A device has the name of the first that is listed under its identifier, and none
/// where none is.
pub proof fn law_first_name(devices: Seq<DeviceView>, udid: Seq<char>)
    ensures
        name_of(devices, udid) is None <==> forall|i: int|
            0 <= i < devices.len() ==> (#[trigger] devices[i]).udid != udid,
        forall|i: int|
            0 <= i < devices.len() && (#[trigger] devices[i]).udid == udid && (forall|j: int|
                0 <= j < i ==> (#[trigger] devices[j]).udid != udid) ==> name_of(devices, udid)
                == Some(devices[i].name),
    decreases devices.len(),
{
    if devices.len() > 0 && devices[0].udid != udid {
        let rest = devices.skip(1);
        law_first_name(rest, udid);
        if name_of(rest, udid) is None {
            assert forall|i: int| 0 <= i < devices.len() implies (#[trigger] devices[i]).udid
                != udid by {
                if i > 0 {
                    assert(rest[i - 1].udid != udid);
                }
            }
        } else if forall|i: int| 0 <= i < devices.len() ==> (#[trigger] devices[i]).udid != udid {
            assert forall|i: int| 0 <= i < rest.len() implies (#[trigger] rest[i]).udid
                != udid by {
                assert(devices[i + 1].udid != udid);
            }
        }
        assert forall|i: int|
            0 <= i < devices.len() && (#[trigger] devices[i]).udid == udid && (forall|j: int|
                0 <= j < i ==> (#[trigger] devices[j]).udid != udid) implies name_of(devices, udid)
            == Some(devices[i].name) by {
            assert(rest[i - 1] == devices[i]);
            assert forall|j: int| 0 <= j < i - 1 implies (#[trigger] rest[j]).udid != udid by {
                assert(devices[j + 1].udid != udid);
            }
        }
    }
}

/// An archived snapshot was made of the device that its first directory is called after.
pub proof fn law_snapshot_source(s: ResticSnapshot)
    ensures
        s.paths@.len() == 0 ==> snapshot_source(s) is None,
        s.paths@.len() > 0 ==> snapshot_source(s) == file_name(s.paths@[0]@),
{
}

/// A local backup has the size and the time of the latest snapshot of its device, and is
/// archived just when an archive of that very snapshot succeeded.
pub proof fn law_local_backup(
    d: DeviceView,
    snapshots: Seq<SnapshotView>,
    archives: Seq<ArchiveView>,
)
    ensures
        ({
            let b = local_backup(d, snapshots, archives);
            let listed = snapshots_listed(snapshots, d.udid);
            &&& b.udid == d.udid
            &&& b.name == d.name
            &&& b.product_type == d.product_type
            &&& b.ios_version == d.ios_version
            &&& listed.len() == 0 ==> b.size_bytes is None && b.last_backup_at is None
                && !b.archived
            &&& listed.len() > 0 ==> b.size_bytes == Some(listed[0].size) && b.last_backup_at
                == Some(listed[0].taken_at)
            &&& listed.len() > 0 ==> (b.archived <==> exists|i: int|
                0 <= i < archives.len() && (#[trigger] archives[i]).snapshot_id == listed[0].id
                    && archives[i].state == "succeeded"@)
        }),
{
    let listed = snapshots_listed(snapshots, d.udid);
    if listed.len() > 0 {
        let id = listed[0].id;
        archives_listed_are_those(archives, id);
        let ls = archives_listed(archives, id);
        if any_succeeded(ls) {
            let k = choose|k: int| 0 <= k < ls.len() && (#[trigger] ls[k]).state == "succeeded"@;
            assert(ls.contains(ls[k]));
            assert(archives.contains(ls[k]));
            let i = choose|i: int| 0 <= i < archives.len() && archives[i] == ls[k];
            assert(archives[i].snapshot_id == id);
        }
        if exists|i: int|
            0 <= i < archives.len() && (#[trigger] archives[i]).snapshot_id == id
                && archives[i].state == "succeeded"@ {
            let i = choose|i: int|
                0 <= i < archives.len() && (#[trigger] archives[i]).snapshot_id == id
                    && archives[i].state == "succeeded"@;
            assert(archives.contains(archives[i]));
            assert(ls.contains(archives[i]));
            let k = choose|k: int| 0 <= k < ls.len() && ls[k] == archives[i];
            assert(ls[k].state == "succeeded"@);
        }
    }
}

/// The archives listed of a snapshot are its archives.
proof fn archives_listed_are_those(archives: Seq<ArchiveView>, id: i64)
    ensures
        forall|a: ArchiveView| #[trigger]
            archives_listed(archives, id).contains(a) <==> archives.contains(a) && a.snapshot_id
                == id,
{
    broadcast use vstd::seq_lib::group_to_multiset_ensures;

    let p = |x: ArchiveView| x.snapshot_id == id;
    let time = |x: ArchiveView| x.created_at;
    let places = lemma_listed(archives, p, time);
    let listed = archives_listed(archives, id);
    let mine = archives.filter(p);
    assert forall|a: ArchiveView| #[trigger] listed.contains(a) <==> archives.contains(a)
        && a.snapshot_id == id by {
        if listed.contains(a) {
            let k = choose|k: int| 0 <= k < listed.len() && listed[k] == a;
            assert(archives[places[k]] == a);
        }
        if archives.contains(a) && p(a) {
            kept_is_filtered(archives, p);
            kept_contains(archives, p, a);
            assert(mine.contains(a));
            assert(mine.to_multiset().count(a) > 0);
            assert(listed.to_multiset().count(a) > 0);
        }
    }
}

/// Each device whose backup is there is listed with it, in order, and no other.
pub proof fn law_local_backups(
    devices: Seq<DeviceView>,
    d: DeviceView,
    is_dir: Seq<bool>,
    snapshots: Seq<SnapshotView>,
    archives: Seq<ArchiveView>,
)
    ensures
        local_backups(seq![], is_dir, snapshots, archives).len() == 0,
        local_backups(devices.push(d), is_dir, snapshots, archives) == (if is_dir[
            devices.len() as int
        ] {
            local_backups(devices, is_dir, snapshots, archives).push(
                local_backup(d, snapshots, archives),
            )
        } else {
            local_backups(devices, is_dir, snapshots, archives)
        }),
{
    assert(devices.push(d).drop_last() =~= devices);
}

/// Why a backup does not start: the first of pairing, encryption and space that is
/// wrong.
pub proof fn law_backup_refused(report: precheck::Report)
    requires
        !report.allows(),
    ensures
        !report.pairing_valid && report.pairing_message is Some ==> backup_refused(report)
            == report.pairing_message->0@,
        !report.pairing_valid && report.pairing_message is None ==> backup_refused(report)
            == "Pairing check failed."@,
        report.pairing_valid && !report.encryption_enabled ==> backup_refused(report)
            == ENCRYPTION_OFF@,
        report.pairing_valid && report.encryption_enabled && report.free_space_bytes is None
            ==> backup_refused(report) == SPACE_UNKNOWN@,
        report.pairing_valid && report.encryption_enabled && report.free_space_bytes is Some
            ==> backup_refused(report) == "Only "@ + decimal(report.free_space_bytes->0 as nat)
            + " bytes free on the working volume; want at least "@ + decimal(
            5 * 1024 * 1024 * 1024,
        ) + " bytes before starting a backup."@,
{
}

/// Why nothing was archived: each reason in its own words.
pub proof fn law_archive_refused(
    udid: Seq<char>,
    dir: String,
    gate: verify::Report,
    e: CradleError,
)
    ensures
        archive_refused(udid, ArchiveError::NoVerifiedSnapshot) == "No verified snapshot for "@
            + udid + " yet — back it up first."@,
        archive_refused(udid, ArchiveError::SourceMissing(dir)) == "Backup directory "@ + dir@
            + " not found — was it moved since the last backup?"@,
        archive_refused(udid, ArchiveError::Locked(e)) == e@.text(),
        archive_refused(udid, ArchiveError::Failed(e)) == e@.text(),
        gate.outcome == verify::Outcome::NeedsPassword ==> archive_refused(
            udid,
            ArchiveError::NoLongerVerified(gate),
        ) == ARCHIVE_NEEDS_PASSWORD@,
        gate.outcome == verify::Outcome::Invalid ==> archive_refused(
            udid,
            ArchiveError::NoLongerVerified(gate),
        )
            == "Re-checking right before archiving found it no longer verifies, even though an earlier backup for "@
            + udid
            + " was verified — something has changed it since (a newer backup run, most likely). Not archiving it:\n"@
            + joined_by(texts(gate.problems@), "\n"@),
{
}

/// Why a restore does not start: each obstacle in its own words.
pub proof fn law_restore_refused(m: String, target: String, backup: String, needed: u64, free: u64)
    ensures
        restore_refused(RestoreObstacle::Pairing(m)) == m@,
        restore_refused(RestoreObstacle::FindMyEnabled) == FIND_MY_ON@,
        restore_refused(RestoreObstacle::OlderIos { target, backup })
            == "Target device is on iOS "@ + target@ + ", but this backup is from iOS "@ + backup@
            + " — restoring backward isn't supported. Update the target device first."@,
        restore_refused(RestoreObstacle::LittleSpace { needed, free })
            == "Not enough free space on the target device: this backup needs "@ + gigabytes(
            needed as nat,
        ) + " GB, but only "@ + gigabytes(free as nat) + " GB is free. "@
            + "Free up space on the device (or delete some apps/media) and try again."@,
        restore_refused(RestoreObstacle::SpaceUnknown) == TARGET_SPACE_UNKNOWN@,
{
}

/// An entry of a history shows all of its run.
pub proof fn law_history_entry(e: HistoryEntry, r: RunView)
    requires
        shows_run(e, r),
    ensures
        e.id == r.id,
        e.kind@ == r.kind,
        e.status@ == r.status,
        e.started_at == r.started_at,
        e.ended_at == r.ended_at,
        e.bytes == r.bytes,
        e.files == r.files,
        r.error is None ==> e.error is None,
        r.error is Some ==> e.error is Some && e.error->0@ == r.error->0,
{
}

/// Other entries show what they are of: a destination its name, kind and place, a device
/// what it is and whether its backup is there, an archived snapshot what it is and whose.
pub proof fn law_other_entries(
    d: DestinationEntry,
    dv: DestinationView,
    s: RestoreSourceEntry,
    sv: DeviceView,
    local: bool,
    a: ArchiveSnapshotEntry,
    av: ResticSnapshot,
    devices: Seq<DeviceView>,
)
    requires
        shows_destination(d, dv),
        shows_source(s, sv, local),
        shows_archived(a, av, devices),
    ensures
        d.name@ == dv.name && d.kind@ == dv.kind && d.uri@ == dv.uri,
        s.udid@ == sv.udid && s.name@ == sv.name && s.product_type@ == sv.product_type
            && s.ios_version@ == sv.ios_version && s.has_local_backup == local,
        a.id@ == av.id@ && a.short_id@ == av.short_id@ && a.time@ == av.time@,
        snapshot_source(av) is None ==> a.source_udid is None && a.source_name is None,
        snapshot_source(av) matches Some(udid) ==> a.source_udid is Some && a.source_udid->0@
            == udid && maybe(a.source_name) == name_of(devices, udid),
{
}

} // verus!
