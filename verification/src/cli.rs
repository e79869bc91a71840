//! What the commands of the terminal decide and say.
use vstd::prelude::*;

use crate::archive::{
    BackupSummary, CheckMode, CheckSummary, ForgetSummary, ResticSnapshot, RestoreSummary,
    RetentionPolicy, RetentionPreview, RetentionPreviewEntry,
};
use crate::backup::{RetryReason, HOST_IO_RETRY_DELAY, LOCK_RETRY_DELAY, STALL_RETRY_DELAY};
use crate::binary64::{gigabytes, gigabytes_text, human, human_bytes};
use crate::catalog::{Catalog, RunRecord, RunView, SnapshotRecord, SnapshotView};
use crate::crypto::{decrypted, unlocked_manifest, Keybag};
use crate::error::CradleError;
use crate::keychain::hex;
use crate::libimobiledevice::{AttachedDevice, DeviceInfo, Transport};
use crate::plists::{file_members, file_view};
use crate::precheck::{self, MIN_FREE_BYTES};
use crate::progress::{align_left, left_aligned};
use crate::restore::{self, RestoreConfig};
use crate::rows::views;
use crate::text::{
    decimal, decimal_text, join_by, joined_by, signed_decimal, signed_decimal_text, texts, trim,
    trimmed,
};
use crate::verify;
use crate::workflow::{backup_obstacle, ArchiveError, BackupObstacle, BackupOutcome, RestoreObstacle};

verus! {

// --- refusals --------------------------------------------------------------------------------

/// A refusal: a word that a script can tell it by, and what it says.
#[derive(Debug)]
pub struct Refusal {
    pub category: String,
    pub message: String,
}

/// What a command that fails leaves: what it prints for a script, and its
/// error.
#[derive(Debug)]
pub struct Failure {
    pub printed: Option<Refusal>,
    pub error: String,
}

/// Fails a command. Only a script is told the category; the error is the
/// message either way.
pub fn bail(json: bool, category: &str, message: &str) -> (f: Failure)
    ensures
        f.error@ == message@,
        match f.printed {
            Some(p) => json && p.category@ == category@ && p.message@ == message@,
            None => !json,
        },
{
    Failure {
        printed: if json {
            Some(Refusal { category: category.to_owned(), message: message.to_owned() })
        } else {
            None
        },
        error: message.to_owned(),
    }
}

/// Whether `r` has this category and message.
pub open spec fn refuses(r: Refusal, category: Seq<char>, message: Seq<char>) -> bool {
    r.category@ == category && r.message@ == message
}

/// A refusal with this category and message.
fn refusal(category: &str, message: String) -> (r: Refusal)
    ensures
        refuses(r, category@, message@),
{
    Refusal { category: category.to_owned(), message }
}

// --- devices ---------------------------------------------------------------------------------

/// The word for how a device is attached.
pub open spec fn transport_word(t: Transport) -> Seq<char> {
    match t {
        Transport::Usb => "Usb"@,
        Transport::Network => "Network"@,
    }
}

/// The word for how a device is attached.
pub fn transport_name(t: Transport) -> (s: &'static str)
    ensures
        s@ == transport_word(t),
{
    match t {
        Transport::Usb => "Usb",
        Transport::Network => "Network",
    }
}

/// A device in words.
pub open spec fn described(info: DeviceInfo) -> Seq<char> {
    info.name@ + " ("@ + info.product_type@ + ", iOS "@ + info.ios_version@ + ")"@
}

/// A device in words.
pub fn describe(info: &DeviceInfo) -> (s: String)
    ensures
        s@ == described(*info),
{
    info.name.clone().concat(" (").concat(info.product_type.as_str()).concat(", iOS ").concat(
        info.ios_version.as_str(),
    ).concat(")")
}

/// The line an attached device is listed with.
pub fn device_line(attached: &AttachedDevice, info: &Result<DeviceInfo, CradleError>) -> (s: String)
    ensures
        s@ == attached.udid@ + "\t"@ + transport_word(attached.transport) + "\t"@ + (match *info {
            Ok(i) => described(i),
            Err(e) => "("@ + e@.text() + ")"@,
        }),
{
    let about = match info {
        Ok(i) => describe(i),
        Err(e) => "(".to_owned().concat(e.message().as_str()).concat(")"),
    };
    attached.udid.clone().concat("\t").concat(transport_name(attached.transport)).concat(
        "\t",
    ).concat(about.as_str())
}

/// An attached device as a script is told of it.
#[derive(Debug)]
pub struct JsonDevice {
    pub udid: String,
    pub transport: &'static str,
    pub name: Option<String>,
    pub product_type: Option<String>,
    pub ios_version: Option<String>,
    pub reachable: bool,
    pub pairing_error: Option<String>,
}

/// An attached device as a script is told of it.
pub fn json_device(attached: AttachedDevice, info: Result<DeviceInfo, CradleError>) -> (d:
    JsonDevice)
    ensures
        d.udid == attached.udid,
        d.transport@ == transport_word(attached.transport),
        d.reachable == info.is_ok(),
        match info {
            Ok(i) => {
                &&& d.name == Some(i.name)
                &&& d.product_type == Some(i.product_type)
                &&& d.ios_version == Some(i.ios_version)
                &&& d.pairing_error is None
            },
            Err(e) => {
                &&& d.name is None
                &&& d.product_type is None
                &&& d.ios_version is None
                &&& d.pairing_error matches Some(words) && words@ == e@.text()
            },
        },
{
    let transport = transport_name(attached.transport);
    match info {
        Ok(i) => JsonDevice {
            udid: attached.udid,
            transport,
            name: Some(i.name),
            product_type: Some(i.product_type),
            ios_version: Some(i.ios_version),
            reachable: true,
            pairing_error: None,
        },
        Err(e) => JsonDevice {
            udid: attached.udid,
            transport,
            name: None,
            product_type: None,
            ios_version: None,
            reachable: false,
            pairing_error: Some(e.message()),
        },
    }
}

/// What is said where no device is attached.
pub const NO_DEVICE: &'static str = "No devices attached. Connect an iPhone or iPad and unlock it.";

/// What is said where it is not clear which device is meant.
pub const MANY_DEVICES: &'static str = "Multiple devices attached — pass --udid to choose one.";

/// The device a command is about: the one named, or else the only one there.
pub fn resolve_udid(udid: Option<String>, attached: &Vec<AttachedDevice>) -> (r: Result<
    String,
    &'static str,
>)
    ensures
        match (udid, r) {
            (Some(u), Ok(s)) => s == u,
            (None, Ok(s)) => attached@.len() == 1 && s@ == attached@[0].udid@,
            (None, Err(m)) => attached@.len() != 1 && m@ == (if attached@.len() == 0 {
                NO_DEVICE@
            } else {
                MANY_DEVICES@
            }),
            _ => false,
        },
{
    if let Some(u) = udid {
        return Ok(u);
    }
    if attached.len() == 1 {
        Ok(attached[0].udid.clone())
    } else if attached.len() == 0 {
        Err(NO_DEVICE)
    } else {
        Err(MANY_DEVICES)
    }
}

// --- doctor ----------------------------------------------------------------------------------

/// One thing that was looked at.
#[derive(Debug)]
pub struct DoctorCheck {
    pub label: String,
    pub ok: bool,
    pub detail: String,
}

/// A [`DoctorCheck`] with its texts as sequences of characters.
pub struct CheckView {
    pub label: Seq<char>,
    pub ok: bool,
    pub detail: Seq<char>,
}

impl View for DoctorCheck {
    type V = CheckView;

    open spec fn view(&self) -> CheckView {
        CheckView { label: self.label@, ok: self.ok, detail: self.detail@ }
    }
}

/// What there is to be said of everything Cradle needs.
#[derive(Debug)]
pub struct DoctorAnswers {
    pub idevice_id: Result<String, CradleError>,
    pub ideviceinfo: Result<String, CradleError>,
    pub idevicepair: Result<String, CradleError>,
    pub idevicebackup2: Result<String, CradleError>,
    pub restic: Result<String, CradleError>,
    /// How many devices are attached.
    pub devices: Result<u64, CradleError>,
    pub working_dir: String,
    pub working_free: Option<u64>,
    pub scratch_dir: String,
    pub scratch_free: Option<u64>,
    pub catalog_path: String,
    pub catalog: Result<(), CradleError>,
}

/// What is said of a directory whose space could not be measured.
pub const UNMEASURED: &'static str = "could not measure free space — is its volume mounted?";

/// What is said where something is missing.
pub const CHECKS_FAILED: &'static str = "One or more checks failed.";

/// What is said of a tool: where it is, or why it is missing.
pub open spec fn tool_check(
    label: Seq<char>,
    found: Result<String, CradleError>,
    hint: Seq<char>,
) -> CheckView {
    match found {
        Ok(place) => CheckView { label, ok: true, detail: place@ },
        Err(e) => CheckView { label, ok: false, detail: e@.text() + hint },
    }
}

/// What is said of a directory.
pub open spec fn dir_check(label: Seq<char>, dir: Seq<char>, free: Option<u64>) -> CheckView {
    CheckView {
        label: label + " ("@ + dir + ")"@,
        ok: free is Some,
        detail: match free {
            Some(bytes) => human(bytes as nat) + " free"@,
            None => UNMEASURED@,
        },
    }
}

/// What is said of the devices.
pub open spec fn devices_check(devices: Result<u64, CradleError>) -> CheckView {
    match devices {
        Ok(n) => CheckView {
            label: "usbmuxd"@,
            ok: true,
            detail: "reachable, "@ + decimal(n as nat) + " device(s) currently seen"@,
        },
        Err(e) => CheckView { label: "usbmuxd"@, ok: false, detail: e@.text() },
    }
}

/// What is said of the catalog.
pub open spec fn catalog_check(path: Seq<char>, opened: Result<(), CradleError>) -> CheckView {
    CheckView {
        label: "catalog ("@ + path + ")"@,
        ok: opened is Ok,
        detail: match opened {
            Ok(()) => "opens fine"@,
            Err(e) => e@.text(),
        },
    }
}

/// Everything that is looked at, in order.
pub open spec fn doctor_checks(a: DoctorAnswers) -> Seq<CheckView> {
    seq![
        tool_check("idevice_id"@, a.idevice_id, seq![]),
        tool_check("ideviceinfo"@, a.ideviceinfo, seq![]),
        tool_check("idevicepair"@, a.idevicepair, seq![]),
        tool_check("idevicebackup2"@, a.idevicebackup2, seq![]),
        tool_check("restic"@, a.restic, " (try `brew install restic`)"@),
        devices_check(a.devices),
        dir_check("working directory"@, a.working_dir@, a.working_free),
        dir_check("scratch directory"@, a.scratch_dir@, a.scratch_free),
        catalog_check(a.catalog_path@, a.catalog),
    ]
}

/// What is said of a tool.
fn look_at_tool(label: &str, found: &Result<String, CradleError>, hint: &str) -> (c: DoctorCheck)
    ensures
        c@ == tool_check(label@, *found, hint@),
{
    match found {
        Ok(place) => DoctorCheck { label: label.to_owned(), ok: true, detail: place.clone() },
        Err(e) => DoctorCheck {
            label: label.to_owned(),
            ok: false,
            detail: e.message().concat(hint),
        },
    }
}

/// What is said of a directory.
fn look_at_dir(label: &str, dir: &str, free: Option<u64>) -> (c: DoctorCheck)
    ensures
        c@ == dir_check(label@, dir@, free),
{
    let label = label.to_owned().concat(" (").concat(dir).concat(")");
    match free {
        Some(bytes) => DoctorCheck { label, ok: true, detail: human_bytes(bytes).concat(" free") },
        None => DoctorCheck { label, ok: false, detail: UNMEASURED.to_owned() },
    }
}

/// Looks at everything Cradle needs.
pub fn run_doctor(a: &DoctorAnswers) -> (checks: Vec<DoctorCheck>)
    ensures
        views(checks@) == doctor_checks(*a),
{
    let mut checks: Vec<DoctorCheck> = Vec::new();
    proof {
        reveal_strlit("");
        assert(""@ =~= seq![]);
    }
    checks.push(look_at_tool("idevice_id", &a.idevice_id, ""));
    checks.push(look_at_tool("ideviceinfo", &a.ideviceinfo, ""));
    checks.push(look_at_tool("idevicepair", &a.idevicepair, ""));
    checks.push(look_at_tool("idevicebackup2", &a.idevicebackup2, ""));
    checks.push(look_at_tool("restic", &a.restic, " (try `brew install restic`)"));
    checks.push(
        match &a.devices {
            Ok(n) => DoctorCheck {
                label: "usbmuxd".to_owned(),
                ok: true,
                detail: "reachable, ".to_owned().concat(decimal_text(*n).as_str()).concat(
                    " device(s) currently seen",
                ),
            },
            Err(e) => DoctorCheck { label: "usbmuxd".to_owned(), ok: false, detail: e.message() },
        },
    );
    checks.push(look_at_dir("working directory", a.working_dir.as_str(), a.working_free));
    checks.push(look_at_dir("scratch directory", a.scratch_dir.as_str(), a.scratch_free));
    let label = "catalog (".to_owned().concat(a.catalog_path.as_str()).concat(")");
    checks.push(
        match &a.catalog {
            Ok(()) => DoctorCheck { label, ok: true, detail: "opens fine".to_owned() },
            Err(e) => DoctorCheck { label, ok: false, detail: e.message() },
        },
    );
    assert(views(checks@) =~= doctor_checks(*a));
    checks
}

/// Whether nothing is missing.
pub fn all_ok(checks: &Vec<DoctorCheck>) -> (r: bool)
    ensures
        r == (forall|i: int| 0 <= i < checks@.len() ==> (#[trigger] checks@[i]).ok),
{
    let mut i: usize = 0;
    while i < checks.len()
        invariant
            i <= checks@.len(),
            forall|k: int| 0 <= k < i ==> (#[trigger] checks@[k]).ok,
        decreases checks@.len() - i,
    {
        if !checks[i].ok {
            return false;
        }
        i = i + 1;
    }
    true
}

/// The line for one thing that was looked at.
pub fn doctor_line(c: &DoctorCheck) -> (s: String)
    ensures
        s@ == (if c.ok {
            "[ok]  "@
        } else {
            "[FAIL]"@
        }) + " "@ + c.label@ + ": "@ + c.detail@,
{
    let tag = if c.ok {
        "[ok]  "
    } else {
        "[FAIL]"
    };
    tag.to_owned().concat(" ").concat(c.label.as_str()).concat(": ").concat(c.detail.as_str())
}

/// Cradle is fit to run just when every tool is there, the devices can be
/// listed, both directories can be measured and the catalog opens.
pub proof fn law_fit_means_everything_is_there(a: DoctorAnswers)
    ensures
        (forall|i: int| 0 <= i < doctor_checks(a).len() ==> (#[trigger] doctor_checks(a)[i]).ok)
            <==> {
            &&& a.idevice_id is Ok
            &&& a.ideviceinfo is Ok
            &&& a.idevicepair is Ok
            &&& a.idevicebackup2 is Ok
            &&& a.restic is Ok
            &&& a.devices is Ok
            &&& a.working_free is Some
            &&& a.scratch_free is Some
            &&& a.catalog is Ok
        },
{
    let c = doctor_checks(a);
    assert(c[0].ok == a.idevice_id is Ok);
    assert(c[1].ok == a.ideviceinfo is Ok);
    assert(c[2].ok == a.idevicepair is Ok);
    assert(c[3].ok == a.idevicebackup2 is Ok);
    assert(c[4].ok == a.restic is Ok);
    assert(c[5].ok == a.devices is Ok);
    assert(c[6].ok == a.working_free is Some);
    assert(c[7].ok == a.scratch_free is Some);
    assert(c[8].ok == a.catalog is Ok);
}

// --- backup ----------------------------------------------------------------------------------

/// Why a backup is tried again, in words.
pub open spec fn retry_words(reason: RetryReason, attempt: u32, max_attempts: u32) -> Seq<char> {
    let tail = "s (attempt "@ + decimal(attempt as nat) + "/"@ + decimal(max_attempts as nat)
        + ")..."@;
    match reason {
        RetryReason::DeviceLocked =>
            "\nDevice locked mid-backup — unlock it now. Retrying in "@ + decimal(
            LOCK_RETRY_DELAY as nat,
        ) + tail,
        RetryReason::HostIo =>
            "\nHost-side I/O error (device error 104) — usually low memory on this Mac. Retrying in "@
            + decimal(HOST_IO_RETRY_DELAY as nat) + tail,
        RetryReason::Stalled =>
            "\nDevice stopped responding, no error reported — check the cable/USB connection and that the device is unlocked and awake. Retrying in "@
            + decimal(STALL_RETRY_DELAY as nat) + tail,
    }
}

/// Why a backup is tried again, in words.
pub fn retry_line(reason: RetryReason, attempt: u32, max_attempts: u32) -> (s: String)
    ensures
        s@ == retry_words(reason, attempt, max_attempts),
{
    let tail = "s (attempt ".to_owned().concat(decimal_text(attempt as u64).as_str()).concat(
        "/",
    ).concat(decimal_text(max_attempts as u64).as_str()).concat(")...");
    match reason {
        RetryReason::DeviceLocked =>
            "\nDevice locked mid-backup — unlock it now. Retrying in ".to_owned().concat(
            decimal_text(LOCK_RETRY_DELAY).as_str(),
        ).concat(tail.as_str()),
        RetryReason::HostIo =>
            "\nHost-side I/O error (device error 104) — usually low memory on this Mac. Retrying in ".to_owned().concat(
            decimal_text(HOST_IO_RETRY_DELAY).as_str(),
        ).concat(tail.as_str()),
        RetryReason::Stalled =>
            "\nDevice stopped responding, no error reported — check the cable/USB connection and that the device is unlocked and awake. Retrying in ".to_owned().concat(
            decimal_text(STALL_RETRY_DELAY).as_str(),
        ).concat(tail.as_str()),
    }
}

/// A backup as a script is told of it.
#[derive(Debug)]
pub struct BackupJson {
    pub backup_dir: String,
    pub files: u64,
    pub bytes: u64,
    pub verified: bool,
    pub needs_password: bool,
    pub manifest_integrity_checked: bool,
    pub problems: Vec<String>,
}

/// What a script is told of a backup that is not usable.
pub const NOT_VERIFIED: &'static str = "Backup did not pass verification.";

/// A backup as a script is told of it, and whether the command succeeds: it
/// does also where only the password is missing.
pub fn backup_json(o: BackupOutcome) -> (r: (BackupJson, Result<(), &'static str>))
    ensures
        r.0 == (BackupJson {
            backup_dir: o.backup_dir,
            files: o.gate.files_on_disk,
            bytes: o.gate.total_bytes,
            verified: o.gate.outcome == verify::Outcome::Verified,
            needs_password: o.gate.outcome == verify::Outcome::NeedsPassword,
            manifest_integrity_checked: o.gate.manifest_integrity_checked,
            problems: o.gate.problems,
        }),
        match r.1 {
            Ok(()) => o.gate.outcome != verify::Outcome::Invalid,
            Err(m) => o.gate.outcome == verify::Outcome::Invalid && m@ == NOT_VERIFIED@,
        },
{
    let verified = o.gate.outcome == verify::Outcome::Verified;
    let needs_password = o.gate.outcome == verify::Outcome::NeedsPassword;
    let json = BackupJson {
        backup_dir: o.backup_dir,
        files: o.gate.files_on_disk,
        bytes: o.gate.total_bytes,
        verified,
        needs_password,
        manifest_integrity_checked: o.gate.manifest_integrity_checked,
        problems: o.gate.problems,
    };
    if verified || needs_password {
        (json, Ok(()))
    } else {
        (json, Err(NOT_VERIFIED))
    }
}

/// What is said of a backup: a success, or why it is none.
pub open spec fn backup_words(o: BackupOutcome) -> Result<Seq<char>, Seq<char>> {
    let dir = o.backup_dir@;
    let counts = " ("@ + decimal(o.gate.files_on_disk as nat) + " files, "@ + human(
        o.gate.total_bytes as nat,
    );
    match o.gate.outcome {
        verify::Outcome::Verified => Ok(
            "Backup verified: "@ + dir + counts + ", Manifest.db integrity confirmed)."@,
        ),
        verify::Outcome::NeedsPassword => Ok(
            "Backup completed but not verified: "@ + dir + counts
                + "). No stored backup password — Manifest.db integrity was never checked, so this cannot be archived yet. Run `cradle password set` and re-run `cradle backup` to verify it."@,
        ),
        verify::Outcome::Invalid => Err(
            "Backup did not pass verification — treat "@ + dir
                + " as failed, not a usable snapshot:\n"@ + joined_by(
                texts(o.gate.problems@),
                "\n"@,
            ),
        ),
    }
}

/// What is said of a backup.
pub fn backup_verdict(o: &BackupOutcome) -> (r: Result<String, String>)
    ensures
        match r {
            Ok(s) => backup_words(*o) == Ok::<Seq<char>, Seq<char>>(s@),
            Err(s) => backup_words(*o) == Err::<Seq<char>, Seq<char>>(s@),
        },
{
    let counts = " (".to_owned().concat(decimal_text(o.gate.files_on_disk).as_str()).concat(
        " files, ",
    ).concat(human_bytes(o.gate.total_bytes).as_str());
    match o.gate.outcome {
        verify::Outcome::Verified => Ok(
            "Backup verified: ".to_owned().concat(o.backup_dir.as_str()).concat(
                counts.as_str(),
            ).concat(", Manifest.db integrity confirmed)."),
        ),
        verify::Outcome::NeedsPassword => Ok(
            "Backup completed but not verified: ".to_owned().concat(o.backup_dir.as_str()).concat(
                counts.as_str(),
            ).concat(
                "). No stored backup password — Manifest.db integrity was never checked, so this cannot be archived yet. Run `cradle password set` and re-run `cradle backup` to verify it.",
            ),
        ),
        verify::Outcome::Invalid => Err(
            "Backup did not pass verification — treat ".to_owned().concat(
                o.backup_dir.as_str(),
            ).concat(" as failed, not a usable snapshot:\n").concat(
                join_by(&o.gate.problems, "\n").as_str(),
            ),
        ),
    }
}

/// What is said of a working directory whose space could not be measured.
pub const SPACE_UNKNOWN: &'static str = "Could not measure free space on the working volume — is it mounted? (An external drive that's unplugged or asleep looks like this.)";

/// Why a backup does not start: category and message.
pub open spec fn precheck_refused(report: precheck::Report, udid: Seq<char>) -> (
    Seq<char>,
    Seq<char>,
) {
    if !report.pairing_valid {
        ("pairing_invalid"@, crate::workflow::pairing_words(report.pairing_message))
    } else if !report.encryption_enabled {
        (
            "encryption_disabled"@,
            "Backup encryption is off on this device. Run `cradle password enable --udid "@ + udid
                + "` to turn it on before continuing — without it, Keychain, Health, call history and saved passwords are silently omitted from the backup."@,
        )
    } else {
        match report.free_space_bytes {
            Some(bytes) => (
                "insufficient_space"@,
                "Only "@ + human(bytes as nat) + " free on the working volume; want at least "@
                    + human(MIN_FREE_BYTES as nat) + " before starting a backup."@,
            ),
            None => ("space_unknown"@, SPACE_UNKNOWN@),
        }
    }
}

/// Why a backup does not start.
pub fn precheck_refusal(report: &precheck::Report, udid: &str) -> (r: Refusal)
    requires
        !report.allows(),
    ensures
        refuses(
            r,
            precheck_refused(*report, udid@).0,
            precheck_refused(*report, udid@).1,
        ),
{
    match backup_obstacle(report) {
        Some(BackupObstacle::Pairing(m)) => refusal("pairing_invalid", m),
        Some(BackupObstacle::EncryptionOff) => refusal(
            "encryption_disabled",
            "Backup encryption is off on this device. Run `cradle password enable --udid ".to_owned().concat(
            udid).concat(
                "` to turn it on before continuing — without it, Keychain, Health, call history and saved passwords are silently omitted from the backup.",
            ),
        ),
        Some(BackupObstacle::LittleSpace(bytes)) => refusal(
            "insufficient_space",
            "Only ".to_owned().concat(human_bytes(bytes).as_str()).concat(
                " free on the working volume; want at least ",
            ).concat(human_bytes(MIN_FREE_BYTES).as_str()).concat(" before starting a backup."),
        ),
        _ => refusal("space_unknown", SPACE_UNKNOWN.to_owned()),
    }
}

// --- history ---------------------------------------------------------------------------------

/// A moment as RFC 3339 writes it, where it has a year of four digits: what
/// `time::OffsetDateTime::from_unix_timestamp` and then `format` with `Rfc3339`
/// give for it.
pub uninterp spec fn rfc3339(unix_secs: i64) -> Option<Seq<char>>;

/// Calls `time::OffsetDateTime::from_unix_timestamp` and, on what it gives,
/// `format` with `Rfc3339`: the same text for the same moment, and `None` where
/// either refuses it.
#[verifier::external_body]
fn rfc3339_text(unix_secs: i64) -> (r: Option<String>)
    ensures
        match r {
            Some(s) => rfc3339(unix_secs) == Some(s@),
            None => rfc3339(unix_secs) is None,
        },
{
    time::OffsetDateTime::from_unix_timestamp(unix_secs)
        .ok()
        .and_then(|t| t.format(&time::format_description::well_known::Rfc3339).ok())
}

/// A moment in words: its date and time, or the bare number where it has none.
pub open spec fn timestamp_words(written: Option<Seq<char>>, unix_secs: i64) -> Seq<char> {
    match written {
        Some(s) => s,
        None => signed_decimal(unix_secs as int),
    }
}

/// A moment in words, from how it is written.
pub fn timestamp_or_number(written: Option<String>, unix_secs: i64) -> (s: String)
    ensures
        s@ == timestamp_words(crate::catalog::maybe(written), unix_secs),
{
    match written {
        Some(s) => s,
        None => signed_decimal_text(unix_secs),
    }
}

/// A moment in words.
pub fn format_timestamp(unix_secs: i64) -> (s: String)
    ensures
        s@ == timestamp_words(rfc3339(unix_secs), unix_secs),
{
    timestamp_or_number(rfc3339_text(unix_secs), unix_secs)
}

/// A number of bytes as the catalog keeps it.
pub open spec fn stored_bytes(n: i64) -> nat {
    if n < 0 {
        (n + 0x1_0000_0000_0000_0000) as nat
    } else {
        n as nat
    }
}

/// A number of bytes as the catalog keeps it.
fn stored_size(n: i64) -> (r: u64)
    ensures
        r == stored_bytes(n),
{
    if n < 0 {
        (n as i128 + 0x1_0000_0000_0000_0000i128) as u64
    } else {
        n as u64
    }
}

/// How long a run took.
pub open spec fn run_duration(run: RunView) -> Seq<char> {
    match run.ended_at {
        Some(ended) => decimal(
            if ended > run.started_at {
                (ended - run.started_at) as nat
            } else {
                0
            },
        ) + "s"@,
        None => "still running"@,
    }
}

/// The line a run is listed with, from when it started in words.
pub open spec fn run_words_from(run: RunView, started: Seq<char>) -> Seq<char> {
    "#"@ + left_aligned(signed_decimal(run.id as int), 4) + " "@ + left_aligned(run.kind, 9) + " "@
        + left_aligned(run.status, 10) + " "@ + started + "  ("@ + run_duration(run) + ")"@ + (match run.bytes {
        Some(n) => "  "@ + human(stored_bytes(n)) + " moved"@,
        None => seq![],
    }) + (match run.files {
        Some(n) => "  "@ + signed_decimal(n as int) + " files"@,
        None => seq![],
    }) + (match run.error {
        Some(e) => "  — "@ + e,
        None => seq![],
    })
}

/// The line a run is listed with.
pub open spec fn run_words(run: RunView) -> Seq<char> {
    run_words_from(run, timestamp_words(rfc3339(run.started_at), run.started_at))
}

/// The line a run is listed with, from when it started in words.
pub fn run_line_from(run: &RunRecord, started: &str) -> (s: String)
    ensures
        s@ == run_words_from(run@, started@),
{
    let duration = match run.ended_at {
        Some(ended) => decimal_text(
            if ended > run.started_at {
                (ended as i128 - run.started_at as i128) as u64
            } else {
                0
            },
        ).concat("s"),
        None => "still running".to_owned(),
    };
    let moved = match run.bytes {
        Some(n) => "  ".to_owned().concat(human_bytes(stored_size(n)).as_str()).concat(" moved"),
        None => String::new(),
    };
    let files = match run.files {
        Some(n) => "  ".to_owned().concat(signed_decimal_text(n).as_str()).concat(" files"),
        None => String::new(),
    };
    let error = match &run.error {
        Some(e) => "  — ".to_owned().concat(e.as_str()),
        None => String::new(),
    };
    "#".to_owned().concat(align_left(signed_decimal_text(run.id).as_str(), 4).as_str()).concat(
        " ",
    ).concat(align_left(run.kind.as_str(), 9).as_str()).concat(" ").concat(
        align_left(run.status.as_str(), 10).as_str(),
    ).concat(" ").concat(started).concat("  (").concat(duration.as_str()).concat(")").concat(
        moved.as_str(),
    ).concat(files.as_str()).concat(error.as_str())
}

/// The line a run is listed with.
pub fn run_line(run: &RunRecord) -> (s: String)
    ensures
        s@ == run_words(run@),
{
    run_line_from(run, format_timestamp(run.started_at).as_str())
}

/// The line a snapshot is listed with, from when it was taken in words.
pub open spec fn snapshot_words_from(snap: SnapshotView, taken: Seq<char>) -> Seq<char> {
    "  snapshot #"@ + signed_decimal(snap.id as int) + "  run #"@ + signed_decimal(
        snap.run_id as int,
    ) + "  "@ + taken + "  "@ + human(
        stored_bytes(snap.size),
    ) + "  iOS "@ + snap.ios_version + "  ["@ + (if snap.verified_at is Some {
        "verified"@
    } else {
        "unverified"@
    }) + "]"@
}

/// The line a snapshot is listed with.
pub open spec fn snapshot_words(snap: SnapshotView) -> Seq<char> {
    snapshot_words_from(snap, timestamp_words(rfc3339(snap.taken_at), snap.taken_at))
}

/// The line a snapshot is listed with, from when it was taken in words.
pub fn snapshot_line_from(snap: &SnapshotRecord, taken: &str) -> (s: String)
    ensures
        s@ == snapshot_words_from(snap@, taken@),
{
    let verified = if snap.verified_at.is_some() {
        "verified"
    } else {
        "unverified"
    };
    "  snapshot #".to_owned().concat(signed_decimal_text(snap.id).as_str()).concat(
        "  run #",
    ).concat(signed_decimal_text(snap.run_id).as_str()).concat("  ").concat(taken).concat(
        "  ",
    ).concat(human_bytes(stored_size(snap.size)).as_str()).concat("  iOS ").concat(
        snap.ios_version.as_str(),
    ).concat("  [").concat(verified).concat("]")
}

/// The line a snapshot is listed with.
pub fn snapshot_line(snap: &SnapshotRecord) -> (s: String)
    ensures
        s@ == snapshot_words(snap@),
{
    snapshot_line_from(snap, format_timestamp(snap.taken_at).as_str())
}

/// What is said of a device's history, line by line: its runs, and its
/// snapshots where it has any.
pub open spec fn history(
    udid: Seq<char>,
    catalog_path: Seq<char>,
    runs: Seq<RunView>,
    snapshots: Seq<SnapshotView>,
) -> Seq<Seq<char>> {
    if runs.len() == 0 {
        seq!["No runs recorded for "@ + udid + " in "@ + catalog_path + "."@]
    } else {
        runs.map_values(|r: RunView| run_words(r)) + (if snapshots.len() == 0 {
            seq![]
        } else {
            seq!["\nSnapshots:"@] + snapshots.map_values(|s: SnapshotView| snapshot_words(s))
        })
    }
}

/// What is said of a device's history.
pub fn run_history(catalog: &Catalog, udid: &str, catalog_path: &str) -> (out: Vec<String>)
    ensures
        texts(out@) == history(
            udid@,
            catalog_path@,
            crate::catalog::runs_listed(catalog@.runs, udid@),
            crate::catalog::snapshots_listed(catalog@.snapshots, udid@),
        ),
{
    broadcast use crate::text::texts_push;

    let runs = catalog.list_runs(udid);
    let snapshots = catalog.list_snapshots(udid);
    let ghost rs = views(runs@);
    let ghost ss = views(snapshots@);
    let ghost fr = |r: RunView| run_words(r);
    let ghost fs = |s: SnapshotView| snapshot_words(s);
    let mut out: Vec<String> = Vec::new();
    if runs.len() == 0 {
        out.push(
            "No runs recorded for ".to_owned().concat(udid).concat(" in ").concat(
                catalog_path,
            ).concat("."),
        );
        assert(texts(out@) =~= history(udid@, catalog_path@, rs, ss));
        return out;
    }
    let mut i: usize = 0;
    assert(texts(out@) =~= rs.take(0).map_values(fr));
    while i < runs.len()
        invariant
            i <= runs@.len(),
            rs == views(runs@),
            fr == (|r: RunView| run_words(r)),
            texts(out@) == rs.take(i as int).map_values(fr),
        decreases runs@.len() - i,
    {
        broadcast use crate::text::texts_push;

        out.push(run_line(&runs[i]));
        assert(rs.take(i + 1) =~= rs.take(i as int).push(rs[i as int]));
        assert(rs.take(i + 1).map_values(fr) =~= rs.take(i as int).map_values(fr).push(
            fr(rs[i as int]),
        ));
        i = i + 1;
    }
    assert(rs.take(i as int) =~= rs);
    if snapshots.len() > 0 {
        out.push("\nSnapshots:".to_owned());
        let ghost head = texts(out@);
        let mut j: usize = 0;
        assert(texts(out@) =~= head + ss.take(0).map_values(fs));
        while j < snapshots.len()
            invariant
                j <= snapshots@.len(),
                ss == views(snapshots@),
                fs == (|s: SnapshotView| snapshot_words(s)),
                texts(out@) == head + ss.take(j as int).map_values(fs),
            decreases snapshots@.len() - j,
        {
            broadcast use crate::text::texts_push;

            out.push(snapshot_line(&snapshots[j]));
            assert(ss.take(j + 1) =~= ss.take(j as int).push(ss[j as int]));
            assert(head + ss.take(j + 1).map_values(fs) =~= (head + ss.take(j as int).map_values(
                fs,
            )).push(fs(ss[j as int])));
            j = j + 1;
        }
        assert(ss.take(j as int) =~= ss);
        assert(texts(out@) =~= history(udid@, catalog_path@, rs, ss));
    } else {
        assert(texts(out@) =~= history(udid@, catalog_path@, rs, ss));
    }
    out
}

// --- archive ---------------------------------------------------------------------------------

/// How thoroughly to check: reading all wins over reading a part.
pub fn check_mode(full: bool, sample: Option<u8>) -> (m: CheckMode)
    ensures
        m == (if full {
            CheckMode::Full
        } else {
            match sample {
                Some(percent) => CheckMode::Sample { percent },
                None => CheckMode::Quick,
            }
        }),
{
    if full {
        CheckMode::Full
    } else {
        match sample {
            Some(percent) => CheckMode::Sample { percent },
            None => CheckMode::Quick,
        }
    }
}

/// What is said of a backup whose password is missing when it is archived.
pub const ARCHIVE_NEEDS_PASSWORD: &'static str = "Re-checking right before archiving found no stored backup password, so the current contents can't be confirmed — run `cradle password set` and back up again to get a verified snapshot.";

/// Why nothing was archived: category and message.
pub open spec fn archive_refused(udid: Seq<char>, e: ArchiveError) -> (Seq<char>, Seq<char>) {
    match e {
        ArchiveError::NoVerifiedSnapshot => (
            "no_verified_snapshot"@,
            "No verified snapshot for "@ + udid + " yet — run `cradle backup --udid "@ + udid
                + "` first. An unverified backup is never treated as an archivable snapshot."@,
        ),
        ArchiveError::SourceMissing(dir) => (
            "source_missing"@,
            "Catalog has a verified snapshot for "@ + udid + ", but "@ + dir@
                + " doesn't exist. Did --working-dir change since that backup ran?"@,
        ),
        ArchiveError::NoLongerVerified(gate) => if gate.outcome
            == verify::Outcome::NeedsPassword {
            ("needs_password"@, ARCHIVE_NEEDS_PASSWORD@)
        } else {
            (
                "stale_verification"@,
                "Re-checking the backup right before archiving found it no longer verifies, even though the catalog has an earlier verified snapshot for "@
                    + udid
                    + " — something has changed it since (a newer backup run, most likely). Not archiving it:\n"@
                    + joined_by(texts(gate.problems@), "\n"@),
            )
        },
        ArchiveError::Locked(e) => ("locked"@, e@.text()),
        ArchiveError::Failed(e) => ("failed"@, e@.text()),
    }
}

/// Why nothing was archived.
pub fn archive_refusal(udid: &str, e: &ArchiveError) -> (r: Refusal)
    ensures
        refuses(r, archive_refused(udid@, *e).0, archive_refused(udid@, *e).1),
{
    match e {
        ArchiveError::NoVerifiedSnapshot => refusal(
            "no_verified_snapshot",
            "No verified snapshot for ".to_owned().concat(udid).concat(
                " yet — run `cradle backup --udid ",
            ).concat(udid).concat(
                "` first. An unverified backup is never treated as an archivable snapshot.",
            ),
        ),
        ArchiveError::SourceMissing(dir) => refusal(
            "source_missing",
            "Catalog has a verified snapshot for ".to_owned().concat(udid).concat(
                ", but ",
            ).concat(dir.as_str()).concat(
                " doesn't exist. Did --working-dir change since that backup ran?",
            ),
        ),
        ArchiveError::NoLongerVerified(gate) => if gate.outcome
            == verify::Outcome::NeedsPassword {
            refusal("needs_password", ARCHIVE_NEEDS_PASSWORD.to_owned())
        } else {
            refusal(
                "stale_verification",
                "Re-checking the backup right before archiving found it no longer verifies, even though the catalog has an earlier verified snapshot for ".to_owned().concat(
                udid).concat(
                    " — something has changed it since (a newer backup run, most likely). Not archiving it:\n",
                ).concat(join_by(&gate.problems, "\n").as_str()),
            )
        },
        ArchiveError::Locked(e) => refusal("locked", e.message()),
        ArchiveError::Failed(e) => refusal("failed", e.message()),
    }
}

/// What is said of a backup that was archived.
pub fn archived_line(summary: &BackupSummary) -> (s: String)
    ensures
        s@ == "Archived: restic snapshot "@ + summary.snapshot_id@ + " — "@ + human(
            summary.data_added as nat,
        ) + " new data written ("@ + human(summary.total_bytes_processed as nat) + " processed, "@
            + decimal(summary.total_files_processed as nat) + " files)."@,
{
    "Archived: restic snapshot ".to_owned().concat(summary.snapshot_id.as_str()).concat(
        " — ",
    ).concat(human_bytes(summary.data_added).as_str()).concat(" new data written (").concat(
        human_bytes(summary.total_bytes_processed).as_str(),
    ).concat(" processed, ").concat(decimal_text(summary.total_files_processed).as_str()).concat(
        " files).",
    )
}

/// The line an archived snapshot is listed with.
pub open spec fn archived_words(s: ResticSnapshot) -> Seq<char> {
    s.short_id@ + "  "@ + s.time@ + "  "@ + joined_by(texts(s.paths@), ", "@)
}

/// What a destination holds, line by line.
pub fn archive_lines(destination_name: &str, snapshots: &Vec<ResticSnapshot>) -> (out: Vec<String>)
    ensures
        texts(out@) == (if snapshots@.len() == 0 {
            seq!["No snapshots in '"@ + destination_name@ + "' yet."@]
        } else {
            snapshots@.map_values(|s: ResticSnapshot| archived_words(s))
        }),
{
    broadcast use crate::text::texts_push;

    let mut out: Vec<String> = Vec::new();
    if snapshots.len() == 0 {
        out.push(
            "No snapshots in '".to_owned().concat(destination_name).concat("' yet."),
        );
        assert(texts(out@) =~= seq!["No snapshots in '"@ + destination_name@ + "' yet."@]);
        return out;
    }
    let ghost f = |s: ResticSnapshot| archived_words(s);
    let mut i: usize = 0;
    assert(texts(out@) =~= snapshots@.take(0).map_values(f));
    while i < snapshots.len()
        invariant
            i <= snapshots@.len(),
            f == (|s: ResticSnapshot| archived_words(s)),
            texts(out@) == snapshots@.take(i as int).map_values(f),
        decreases snapshots@.len() - i,
    {
        broadcast use crate::text::texts_push;

        let s = &snapshots[i];
        out.push(
            s.short_id.clone().concat("  ").concat(s.time.as_str()).concat("  ").concat(
                join_by(&s.paths, ", ").as_str(),
            ),
        );
        assert(snapshots@.take(i + 1).map_values(f) =~= snapshots@.take(i as int).map_values(
            f,
        ).push(f(snapshots@[i as int])));
        i = i + 1;
    }
    assert(snapshots@.take(i as int) =~= snapshots@);
    out
}

/// Takes in that a destination was pruned: the policy is kept with it. Gives
/// what is said of it.
pub fn pruned(
    catalog: &mut Catalog,
    destination_id: i64,
    policy: &RetentionPolicy,
    summary: &ForgetSummary,
) -> (s: String)
    requires
        old(catalog)@.wf(),
    ensures
        final(catalog)@.wf(),
        final(catalog)@ == old(catalog)@.with_retention(destination_id, policy.json()),
        s@ == "Kept "@ + decimal(summary.kept as nat) + " snapshot(s), removed "@ + decimal(
            summary.removed as nat,
        ) + "."@,
{
    let json = policy.to_json();
    catalog.set_destination_retention(destination_id, json.as_str());
    "Kept ".to_owned().concat(decimal_text(summary.kept).as_str()).concat(
        " snapshot(s), removed ",
    ).concat(decimal_text(summary.removed).as_str()).concat(".")
}

/// The line a snapshot that would go is listed with.
pub open spec fn going(e: RetentionPreviewEntry) -> Seq<char> {
    "  "@ + e.short_id@ + "  "@ + e.time@
}

/// What a policy would do, line by line.
pub open spec fn preview_words(p: RetentionPreview) -> Seq<Seq<char>> {
    (if p.removed@.len() == 0 {
        seq!["Would remove: none."@]
    } else {
        seq!["Would remove "@ + decimal(p.removed@.len()) + " snapshot(s):"@]
            + p.removed@.map_values(|e: RetentionPreviewEntry| going(e))
    }).push("Would keep "@ + decimal(p.kept@.len()) + " snapshot(s)."@).push(
        "Run without --dry-run to actually apply this policy."@,
    )
}

/// What a policy would do, line by line.
pub fn preview_lines(p: &RetentionPreview) -> (out: Vec<String>)
    ensures
        texts(out@) == preview_words(*p),
{
    broadcast use crate::text::texts_push;

    let mut out: Vec<String> = Vec::new();
    let ghost f = |e: RetentionPreviewEntry| going(e);
    if p.removed.len() == 0 {
        out.push("Would remove: none.".to_owned());
        assert(texts(out@) =~= seq!["Would remove: none."@]);
    } else {
        out.push(
            "Would remove ".to_owned().concat(decimal_text(p.removed.len() as u64).as_str()).concat(
                " snapshot(s):",
            ),
        );
        let ghost head = texts(out@);
        assert(head =~= seq!["Would remove "@ + decimal(p.removed@.len()) + " snapshot(s):"@]);
        let mut i: usize = 0;
        assert(texts(out@) =~= head + p.removed@.take(0).map_values(f));
        while i < p.removed.len()
            invariant
                i <= p.removed@.len(),
                f == (|e: RetentionPreviewEntry| going(e)),
                texts(out@) == head + p.removed@.take(i as int).map_values(f),
            decreases p.removed@.len() - i,
        {
            broadcast use crate::text::texts_push;

            let e = &p.removed[i];
            out.push(
                "  ".to_owned().concat(e.short_id.as_str()).concat("  ").concat(e.time.as_str()),
            );
            assert(head + p.removed@.take(i + 1).map_values(f) =~= (head + p.removed@.take(
                i as int,
            ).map_values(f)).push(f(p.removed@[i as int])));
            i = i + 1;
        }
        assert(p.removed@.take(i as int) =~= p.removed@);
    }
    out.push(
        "Would keep ".to_owned().concat(decimal_text(p.kept.len() as u64).as_str()).concat(
            " snapshot(s).",
        ),
    );
    out.push("Run without --dry-run to actually apply this policy.".to_owned());
    out
}

/// What is said of a repository that was checked: a success just when there
/// were no errors.
pub fn check_verdict(destination_name: &str, summary: &CheckSummary) -> (r: Result<
    &'static str,
    String,
>)
    ensures
        match r {
            Ok(s) => summary.num_errors == 0 && s@ == "No errors found."@,
            Err(m) => summary.num_errors != 0 && m@ == "restic check found "@ + decimal(
                summary.num_errors as nat,
            ) + " error(s) in '"@ + destination_name@ + "'."@,
        },
{
    if summary.num_errors == 0 {
        Ok("No errors found.")
    } else {
        Err(
            "restic check found ".to_owned().concat(
                decimal_text(summary.num_errors).as_str(),
            ).concat(" error(s) in '").concat(destination_name).concat("'."),
        )
    }
}

// --- restore ---------------------------------------------------------------------------------

/// What is said of a device on which Find My is on.
pub const FIND_MY_ON: &'static str = "Find My is enabled on the target device. Disable it under Settings > [name] > Find My > Find My iPhone before restoring.";

/// What is said of a device whose space could not be read.
pub const TARGET_SPACE_UNKNOWN: &'static str = "Could not read how much free space the target device has — check that it's unlocked and reachable, then try again.";

/// What is said of a device whose iOS is older than the backup's.
pub open spec fn older_ios(target: Seq<char>, backup: Seq<char>) -> Seq<char> {
    "Target device is on iOS "@ + target + ", but this backup is from iOS "@ + backup
        + " — restoring backward isn't supported. Update the target device first."@
}

/// What is said of a device whose iOS is older than the backup's.
pub fn older_ios_message(target: &str, backup: &str) -> (s: String)
    ensures
        s@ == older_ios(target@, backup@),
{
    "Target device is on iOS ".to_owned().concat(target).concat(
        ", but this backup is from iOS ",
    ).concat(backup).concat(
        " — restoring backward isn't supported. Update the target device first.",
    )
}

/// What is said of a device without enough space, up to the advice.
pub open spec fn too_small(needed: u64, free: u64) -> Seq<char> {
    "Not enough free space on the target device: this backup needs "@ + gigabytes(needed as nat)
        + " GB, but only "@ + gigabytes(free as nat) + " GB is free. "@
}

/// What is said of a device without enough space, up to the advice.
pub fn too_small_message(needed: u64, free: u64) -> (s: String)
    ensures
        s@ == too_small(needed, free),
{
    "Not enough free space on the target device: this backup needs ".to_owned().concat(
        gigabytes_text(needed).as_str(),
    ).concat(" GB, but only ").concat(gigabytes_text(free).as_str()).concat(" GB is free. ")
}

/// Why a restore does not start: category and message.
pub open spec fn restore_refused(o: RestoreObstacle) -> (Seq<char>, Seq<char>) {
    match o {
        RestoreObstacle::Pairing(m) => ("pairing_invalid"@, m@),
        RestoreObstacle::FindMyEnabled => ("find_my_enabled"@, FIND_MY_ON@),
        RestoreObstacle::OlderIos { target, backup } => (
            "ios_version_mismatch"@,
            older_ios(target@, backup@),
        ),
        RestoreObstacle::LittleSpace { needed, free } => (
            "not_enough_space"@,
            too_small(needed, free) + "Free up space on the device and try again."@,
        ),
        RestoreObstacle::SpaceUnknown => ("not_enough_space"@, TARGET_SPACE_UNKNOWN@),
    }
}

/// Why a restore does not start.
pub fn restore_refusal(o: RestoreObstacle) -> (r: Refusal)
    ensures
        refuses(r, restore_refused(o).0, restore_refused(o).1),
{
    match o {
        RestoreObstacle::Pairing(m) => refusal("pairing_invalid", m),
        RestoreObstacle::FindMyEnabled => refusal("find_my_enabled", FIND_MY_ON.to_owned()),
        RestoreObstacle::OlderIos { target, backup } => refusal(
            "ios_version_mismatch",
            older_ios_message(target.as_str(), backup.as_str()),
        ),
        RestoreObstacle::LittleSpace { needed, free } => refusal(
            "not_enough_space",
            too_small_message(needed, free).concat("Free up space on the device and try again."),
        ),
        RestoreObstacle::SpaceUnknown => refusal(
            "not_enough_space",
            TARGET_SPACE_UNKNOWN.to_owned(),
        ),
    }
}

/// What is said of a backup that was fetched from a destination.
pub fn fetched_line(summary: &RestoreSummary, destination_name: &str) -> (s: String)
    ensures
        s@ == "Restored "@ + decimal(summary.files_restored as nat) + " file(s) ("@ + human(
            summary.total_bytes as nat,
        ) + ") from '"@ + destination_name@ + "' into scratch."@,
{
    "Restored ".to_owned().concat(decimal_text(summary.files_restored).as_str()).concat(
        " file(s) (",
    ).concat(human_bytes(summary.total_bytes).as_str()).concat(") from '").concat(
        destination_name,
    ).concat("' into scratch.")
}

/// How a restore is to go, from the options of the command.
pub fn restore_config(no_reboot: bool, system_files: bool) -> (c: RestoreConfig)
    ensures
        c == (RestoreConfig { reboot: !no_reboot, system_files, restore_settings: false }),
{
    let mut c = RestoreConfig::default();
    c.reboot = !no_reboot;
    c.system_files = system_files;
    c
}

/// What is said of a restore that is done.
pub fn restored_line(outcome: &restore::Outcome, reboot: bool) -> (s: String)
    ensures
        s@ == "Restore complete on "@ + outcome.target_udid@ + "."@ + (if reboot {
            " Device will reboot."@
        } else {
            ""@
        }),
{
    "Restore complete on ".to_owned().concat(outcome.target_udid.as_str()).concat(".").concat(
        if reboot {
            " Device will reboot."
        } else {
            ""
        },
    )
}

// --- passwords -------------------------------------------------------------------------------

/// What is said of an empty password that was to be stored.
pub const EMPTY_NOT_STORED: &'static str = "Password was empty — not storing it.";

/// What is said of an empty password that was to turn encryption on.
pub const EMPTY_NOT_ENABLED: &'static str = "Password was empty — not enabling encryption.";

/// Refuses an empty password, with `refused`.
pub fn require_password(password: &str, refused: &'static str) -> (r: Result<(), &'static str>)
    ensures
        match r {
            Ok(()) => password@.len() > 0,
            Err(m) => password@.len() == 0 && m@ == refused@,
        },
{
    if password.unicode_len() == 0 {
        Err(refused)
    } else {
        Ok(())
    }
}

/// The password to decrypt with: the one given, or else the one stored.
pub fn decrypt_password(given: Option<String>, stored: Option<String>, udid: &str) -> (r: Result<
    String,
    String,
>)
    ensures
        match (given, stored, r) {
            (Some(p), _, Ok(s)) => s == p,
            (None, Some(p), Ok(s)) => s == p,
            (None, None, Err(m)) => m@ == "No stored backup password for "@ + udid@
                + " — run `cradle password set --udid "@ + udid@
                + "` first, or pass --password directly if it's changed since this backup was made."@,
            _ => false,
        },
{
    match given {
        Some(p) => Ok(p),
        None => match stored {
            Some(p) => Ok(p),
            None => Err(
                "No stored backup password for ".to_owned().concat(udid).concat(
                    " — run `cradle password set --udid ",
                ).concat(udid).concat(
                    "` first, or pass --password directly if it's changed since this backup was made.",
                ),
            ),
        },
    }
}

// --- decrypt ---------------------------------------------------------------------------------

/// The value of a hexadecimal digit, in either case.
pub open spec fn hex_value(c: char) -> Option<nat> {
    if '0' <= c <= '9' {
        Some((c as nat - '0' as nat) as nat)
    } else if 'a' <= c <= 'f' {
        Some((c as nat - 'a' as nat + 10) as nat)
    } else if 'A' <= c <= 'F' {
        Some((c as nat - 'A' as nat + 10) as nat)
    } else {
        None
    }
}

/// The bytes that a text spells in hexadecimal, two digits each; `None` where
/// it does not.
pub open spec fn hex_read(s: Seq<char>) -> Option<Seq<u8>>
    decreases s.len(),
{
    if s.len() == 0 {
        Some(seq![])
    } else if s.len() == 1 {
        None
    } else {
        let n = s.len() as int;
        match (hex_read(s.take(n - 2)), hex_value(s[n - 2]), hex_value(s[n - 1])) {
            (Some(rest), Some(high), Some(low)) => Some(rest.push((16 * high + low) as u8)),
            _ => None,
        }
    }
}

/// Bytes written in hexadecimal read back as they were.
pub proof fn law_hex_reads_back(bytes: Seq<u8>)
    ensures
        hex_read(hex(bytes)) == Some(bytes),
    decreases bytes.len(),
{
    if bytes.len() > 0 {
        let rest = bytes.drop_last();
        let b = bytes.last();
        law_hex_reads_back(rest);
        let s = hex(bytes);
        let n = s.len() as int;
        assert(s.take(n - 2) =~= hex(rest));
        assert(hex_value(s[n - 2]) == Some(b as nat / 16));
        assert(hex_value(s[n - 1]) == Some(b as nat % 16));
        assert(rest.push(b) =~= bytes);
    } else {
        assert(hex_read(hex(bytes)) =~= Some(bytes));
    }
}

/// The words in which `hex::decode` refuses a text.
pub uninterp spec fn hex_refused(s: Seq<char>) -> Seq<char>;

/// Calls `hex::decode`: the bytes that the text spells, two digits each, in
/// either case; or the words of its error, the same for the same text, where it
/// has an odd number of digits or something that is none.
#[verifier::external_body]
fn hex_decode(s: &str) -> (r: Result<Vec<u8>, String>)
    ensures
        match r {
            Ok(bytes) => hex_read(s@) == Some(bytes@),
            Err(words) => hex_read(s@) is None && words@ == hex_refused(s@),
        },
{
    hex::decode(s).map_err(|e| e.to_string())
}

/// What comes of reading a key that is given in hexadecimal.
pub fn encryption_key(decoded: Result<Vec<u8>, String>) -> (r: Result<Vec<u8>, String>)
    ensures
        match (decoded, r) {
            (Ok(bytes), Ok(key)) => key == bytes,
            (Err(words), Err(m)) => m@ == "--encryption-key is not valid hex: "@ + words@,
            _ => false,
        },
{
    match decoded {
        Ok(bytes) => Ok(bytes),
        Err(words) => Err(
            "--encryption-key is not valid hex: ".to_owned().concat(words.as_str()),
        ),
    }
}

/// Reads a key that is given in hexadecimal, blanks around it aside.
pub fn read_encryption_key(given: &str) -> (r: Result<Vec<u8>, String>)
    ensures
        match r {
            Ok(key) => hex_read(trim(given@)) == Some(key@),
            Err(m) => hex_read(trim(given@)) is None && m@
                == "--encryption-key is not valid hex: "@ + hex_refused(trim(given@)),
        },
{
    encryption_key(hex_decode(trimmed(given).as_str()))
}

/// What comes of decrypting one file of a backup: its bytes, or the first thing
/// that went wrong, in the order keybag, key, file, decryption.
pub open spec fn decrypted_file(
    manifest: Result<&[u8], String>,
    password: Seq<char>,
    key: Seq<char>,
    input: Seq<char>,
    contents: Result<Vec<u8>, String>,
) -> Result<Seq<u8>, Seq<char>> {
    match unlocked_manifest(
        file_members(file_view(manifest)),
        vstd::utf8::encode_utf8(password),
    ) {
        Err(e) => Err(e.text()),
        Ok(keys) => match hex_read(trim(key)) {
            None => Err("--encryption-key is not valid hex: "@ + hex_refused(trim(key))),
            Some(wrapped) => match contents {
                Err(words) => Err("could not read "@ + input + ": "@ + words@),
                Ok(data) => match decrypted(keys, data@, wrapped) {
                    Err(e) => Err(e.text()),
                    Ok(plain) => Ok(plain),
                },
            },
        },
    }
}

/// Decrypts one file of a backup.
pub fn run_decrypt(
    manifest: &Result<&[u8], String>,
    password: &str,
    key: &str,
    input: &str,
    contents: Result<Vec<u8>, String>,
) -> (r: Result<Vec<u8>, String>)
    ensures
        match r {
            Ok(plain) => decrypted_file(*manifest, password@, key@, input@, contents) == Ok::<
                Seq<u8>,
                Seq<char>,
            >(plain@),
            Err(m) => decrypted_file(*manifest, password@, key@, input@, contents) == Err::<
                Seq<u8>,
                Seq<char>,
            >(m@),
        },
{
    let keybag = match Keybag::unlock_from_backup_dir(manifest, password) {
        Ok(keybag) => keybag,
        Err(e) => return Err(e.message()),
    };
    let wrapped = match read_encryption_key(key) {
        Ok(wrapped) => wrapped,
        Err(m) => return Err(m),
    };
    let mut data = match contents {
        Ok(data) => data,
        Err(words) => return Err(
            "could not read ".to_owned().concat(input).concat(": ").concat(words.as_str()),
        ),
    };
    match keybag.decrypt(data.as_mut_slice(), wrapped.as_slice()) {
        Ok(()) => Ok(data),
        Err(e) => Err(e.message()),
    }
}

/// What is said of a file that was decrypted.
pub fn decrypted_line(input: &str, bytes: usize, output: &str) -> (s: String)
    ensures
        s@ == "Decrypted "@ + input@ + " ("@ + decimal(bytes as nat) + " bytes) to "@ + output@
            + ". Note: output may have trailing pad bytes past the file's true size — see crypto.rs's `Keybag::decrypt` doc if that matters for this file."@,
{
    "Decrypted ".to_owned().concat(input).concat(" (").concat(
        decimal_text(bytes as u64).as_str(),
    ).concat(" bytes) to ").concat(output).concat(
        ". Note: output may have trailing pad bytes past the file's true size — see crypto.rs's `Keybag::decrypt` doc if that matters for this file.",
    )
}

// --- laws ------------------------------------------------------------------------------------

/// A device is told by its name, its type and its version, and by the word for how it is
/// attached.
pub proof fn law_described(info: DeviceInfo)
    ensures
        described(info) == info.name@ + " ("@ + info.product_type@ + ", iOS "@ + info.ios_version@
            + ")"@,
        transport_word(Transport::Usb) == "Usb"@,
        transport_word(Transport::Network) == "Network"@,
{
}

/// Each thing that is looked at is told under its own label, with what was found of it.
pub proof fn law_checks_are_labelled(a: DoctorAnswers)
    ensures
        doctor_checks(a).len() == 9,
        doctor_checks(a)[0].label == "idevice_id"@,
        doctor_checks(a)[1].label == "ideviceinfo"@,
        doctor_checks(a)[2].label == "idevicepair"@,
        doctor_checks(a)[3].label == "idevicebackup2"@,
        doctor_checks(a)[4].label == "restic"@,
        doctor_checks(a)[5].label == "usbmuxd"@,
        doctor_checks(a)[6].label == "working directory"@ + " ("@ + a.working_dir@ + ")"@,
        doctor_checks(a)[7].label == "scratch directory"@ + " ("@ + a.scratch_dir@ + ")"@,
        doctor_checks(a)[8].label == "catalog ("@ + a.catalog_path@ + ")"@,
        a.idevice_id matches Ok(p) ==> doctor_checks(a)[0].detail == p@,
        a.ideviceinfo matches Ok(p) ==> doctor_checks(a)[1].detail == p@,
        a.idevicepair matches Ok(p) ==> doctor_checks(a)[2].detail == p@,
        a.idevicebackup2 matches Ok(p) ==> doctor_checks(a)[3].detail == p@,
        a.restic matches Ok(p) ==> doctor_checks(a)[4].detail == p@,
        a.idevice_id matches Err(e) ==> doctor_checks(a)[0].detail == e@.text(),
        a.ideviceinfo matches Err(e) ==> doctor_checks(a)[1].detail == e@.text(),
        a.idevicepair matches Err(e) ==> doctor_checks(a)[2].detail == e@.text(),
        a.idevicebackup2 matches Err(e) ==> doctor_checks(a)[3].detail == e@.text(),
        a.restic matches Err(e) ==> doctor_checks(a)[4].detail == e@.text()
            + " (try `brew install restic`)"@,
        a.devices matches Ok(n) ==> doctor_checks(a)[5].detail == "reachable, "@ + decimal(
            n as nat,
        ) + " device(s) currently seen"@,
        a.devices matches Err(e) ==> doctor_checks(a)[5].detail == e@.text(),
        a.working_free matches Some(n) ==> doctor_checks(a)[6].detail == human(n as nat)
            + " free"@,
        a.working_free is None ==> doctor_checks(a)[6].detail == UNMEASURED@,
        a.scratch_free matches Some(n) ==> doctor_checks(a)[7].detail == human(n as nat)
            + " free"@,
        a.scratch_free is None ==> doctor_checks(a)[7].detail == UNMEASURED@,
        a.catalog is Ok ==> doctor_checks(a)[8].detail == "opens fine"@,
        a.catalog matches Err(e) ==> doctor_checks(a)[8].detail == e@.text(),
{
}

/// A retry tells why, how long it waits, and which try of how many it is.
pub proof fn law_retry_words(attempt: u32, max: u32)
    ensures
        retry_words(RetryReason::DeviceLocked, attempt, max)
            == "\nDevice locked mid-backup — unlock it now. Retrying in "@ + decimal(10) + (
        "s (attempt "@ + decimal(attempt as nat) + "/"@ + decimal(max as nat) + ")..."@),
        retry_words(RetryReason::HostIo, attempt, max)
            == "\nHost-side I/O error (device error 104) — usually low memory on this Mac. Retrying in "@
            + decimal(30) + ("s (attempt "@ + decimal(attempt as nat) + "/"@ + decimal(max as nat)
            + ")..."@),
        retry_words(RetryReason::Stalled, attempt, max)
            == "\nDevice stopped responding, no error reported — check the cable/USB connection and that the device is unlocked and awake. Retrying in "@
            + decimal(30) + ("s (attempt "@ + decimal(attempt as nat) + "/"@ + decimal(max as nat)
            + ")..."@),
{
}

/// A backup is a failure just where it is invalid, and then its problems are told, a
/// line each; else its files and bytes are, and that it is verified only where it is.
pub proof fn law_backup_words(o: BackupOutcome)
    ensures
        backup_words(o) is Err <==> o.gate.outcome == verify::Outcome::Invalid,
        o.gate.outcome == verify::Outcome::Verified ==> backup_words(o) == Ok::<
            Seq<char>,
            Seq<char>,
        >(
            "Backup verified: "@ + o.backup_dir@ + (" ("@ + decimal(o.gate.files_on_disk as nat)
                + " files, "@ + human(o.gate.total_bytes as nat))
                + ", Manifest.db integrity confirmed)."@,
        ),
        o.gate.outcome == verify::Outcome::NeedsPassword ==> backup_words(o) == Ok::<
            Seq<char>,
            Seq<char>,
        >(
            "Backup completed but not verified: "@ + o.backup_dir@ + (" ("@ + decimal(
                o.gate.files_on_disk as nat,
            ) + " files, "@ + human(o.gate.total_bytes as nat))
                + "). No stored backup password — Manifest.db integrity was never checked, so this cannot be archived yet. Run `cradle password set` and re-run `cradle backup` to verify it."@,
        ),
        o.gate.outcome == verify::Outcome::Invalid ==> backup_words(o) == Err::<
            Seq<char>,
            Seq<char>,
        >(
            "Backup did not pass verification — treat "@ + o.backup_dir@
                + " as failed, not a usable snapshot:\n"@ + joined_by(
                texts(o.gate.problems@),
                "\n"@,
            ),
        ),
{
}

/// Why a backup does not start: the first of pairing, encryption and space that is
/// wrong, under its own word.
pub proof fn law_precheck_refused(report: precheck::Report, udid: Seq<char>)
    requires
        !report.allows(),
    ensures
        precheck_refused(report, udid).0 == "pairing_invalid"@ <== !report.pairing_valid,
        !report.pairing_valid && report.pairing_message is Some ==> precheck_refused(
            report,
            udid,
        ).1 == report.pairing_message->0@,
        report.pairing_valid && !report.encryption_enabled ==> precheck_refused(report, udid) == (
            "encryption_disabled"@,
            "Backup encryption is off on this device. Run `cradle password enable --udid "@ + udid
                + "` to turn it on before continuing — without it, Keychain, Health, call history and saved passwords are silently omitted from the backup."@,
        ),
        report.pairing_valid && report.encryption_enabled && report.free_space_bytes is Some
            ==> precheck_refused(report, udid) == (
            "insufficient_space"@,
            "Only "@ + human(report.free_space_bytes->0 as nat)
                + " free on the working volume; want at least "@ + human(5 * 1024 * 1024 * 1024)
                + " before starting a backup."@,
        ),
        report.pairing_valid && report.encryption_enabled && report.free_space_bytes is None
            ==> precheck_refused(report, udid) == ("space_unknown"@, SPACE_UNKNOWN@),
{
}

/// A moment that has a date is written as that; any other as its number.
pub proof fn law_timestamp(written: Seq<char>, unix_secs: i64)
    ensures
        timestamp_words(Some(written), unix_secs) == written,
        timestamp_words(None, unix_secs) == signed_decimal(unix_secs as int),
{
}

/// A number of bytes is listed as it was recorded, however large.
pub proof fn law_bytes_read_back(n: u64)
    ensures
        stored_bytes(n as i64) == n,
{
    assert(n < 0x8000_0000_0000_0000u64 ==> n as i64 == n) by (bit_vector);
    assert(n >= 0x8000_0000_0000_0000u64 ==> (n as i64) < 0 && (n as i64)
        + 0x1_0000_0000_0000_0000 == n) by (bit_vector);
}

/// A run took the time between its start and its end, none where the clock went back.
pub proof fn law_run_duration(run: RunView)
    ensures
        run.ended_at is None ==> run_duration(run) == "still running"@,
        run.ended_at matches Some(e) && e >= run.started_at ==> run_duration(run) == decimal(
            (run.ended_at->0 - run.started_at) as nat,
        ) + "s"@,
        run.ended_at matches Some(e) && e < run.started_at ==> run_duration(run) == decimal(0)
            + "s"@,
{
}

/// A run that has neither bytes, files nor an error is listed up to how long it took;
/// each of the three, where there is one, is told behind, in that order.
pub proof fn law_run_line(run: RunView, started: Seq<char>, bytes: u64, files: i64, error: Seq<char>)
    ensures
        ({
            let bare = RunView { bytes: None, files: None, error: None, ..run };
            let full = RunView {
                bytes: Some(bytes as i64),
                files: Some(files),
                error: Some(error),
                ..run
            };
            let head = "#"@ + left_aligned(signed_decimal(run.id as int), 4) + " "@ + left_aligned(
                run.kind,
                9,
            ) + " "@ + left_aligned(run.status, 10) + " "@ + started + "  ("@ + run_duration(run)
                + ")"@;
            &&& run_words_from(bare, started) == head
            &&& run_words_from(full, started) == head + ("  "@ + human(bytes as nat) + " moved"@)
                + ("  "@ + signed_decimal(files as int) + " files"@) + ("  — "@ + error)
        }),
{
    law_bytes_read_back(bytes);
    let bare = RunView { bytes: None, files: None, error: None, ..run };
    let full = RunView {
        bytes: Some(bytes as i64),
        files: Some(files),
        error: Some(error),
        ..run
    };
    assert(run_duration(bare) == run_duration(run));
    assert(run_duration(full) == run_duration(run));
    let head = "#"@ + left_aligned(signed_decimal(run.id as int), 4) + " "@ + left_aligned(
        run.kind,
        9,
    ) + " "@ + left_aligned(run.status, 10) + " "@ + started + "  ("@ + run_duration(run) + ")"@;
    assert(head + Seq::<char>::empty() + Seq::<char>::empty() + Seq::<char>::empty() =~= head);
}

/// A snapshot's line tells its number, its run, when it was taken, its size, its version,
/// and whether it is verified.
pub proof fn law_snapshot_line(snap: SnapshotView, taken: Seq<char>, size: u64)
    requires
        snap.size == size as i64,
    ensures
        snapshot_words_from(snap, taken) == "  snapshot #"@ + signed_decimal(snap.id as int)
            + "  run #"@ + signed_decimal(snap.run_id as int) + "  "@ + taken + "  "@ + human(
            size as nat,
        ) + "  iOS "@ + snap.ios_version + "  ["@ + (if snap.verified_at is None {
            "unverified"@
        } else {
            "verified"@
        }) + "]"@,
{
    law_bytes_read_back(size);
}

/// A history has a line for each run and then, where there are any, one for each
/// snapshot; without runs it is one line that says so.
pub proof fn law_history(
    udid: Seq<char>,
    path: Seq<char>,
    runs: Seq<RunView>,
    snapshots: Seq<SnapshotView>,
    i: int,
)
    ensures
        ({
            let h = history(udid, path, runs, snapshots);
            &&& runs.len() == 0 ==> h == seq![
                "No runs recorded for "@ + udid + " in "@ + path + "."@,
            ]
            &&& runs.len() > 0 ==> h.len() == runs.len() + (if snapshots.len() > 0 {
                snapshots.len() + 1
            } else {
                0
            })
            &&& 0 <= i < runs.len() ==> h[i] == run_words(runs[i])
            &&& runs.len() > 0 && snapshots.len() > 0 ==> h[runs.len() as int]
                == "\nSnapshots:"@
            &&& runs.len() > 0 && 0 <= i < snapshots.len() ==> h[runs.len() as int + 1 + i]
                == snapshot_words(snapshots[i])
        }),
{
}

/// Why nothing was archived: each reason under its own word, and in its own.
pub proof fn law_archive_refused(
    udid: Seq<char>,
    dir: String,
    gate: verify::Report,
    e: CradleError,
)
    ensures
        archive_refused(udid, ArchiveError::NoVerifiedSnapshot) == (
            "no_verified_snapshot"@,
            "No verified snapshot for "@ + udid + " yet — run `cradle backup --udid "@ + udid
                + "` first. An unverified backup is never treated as an archivable snapshot."@,
        ),
        archive_refused(udid, ArchiveError::SourceMissing(dir)) == (
            "source_missing"@,
            "Catalog has a verified snapshot for "@ + udid + ", but "@ + dir@
                + " doesn't exist. Did --working-dir change since that backup ran?"@,
        ),
        archive_refused(udid, ArchiveError::Locked(e)) == ("locked"@, e@.text()),
        archive_refused(udid, ArchiveError::Failed(e)) == ("failed"@, e@.text()),
        gate.outcome == verify::Outcome::NeedsPassword ==> archive_refused(
            udid,
            ArchiveError::NoLongerVerified(gate),
        ) == ("needs_password"@, ARCHIVE_NEEDS_PASSWORD@),
        gate.outcome == verify::Outcome::Invalid ==> archive_refused(
            udid,
            ArchiveError::NoLongerVerified(gate),
        ) == (
            "stale_verification"@,
            "Re-checking the backup right before archiving found it no longer verifies, even though the catalog has an earlier verified snapshot for "@
                + udid
                + " — something has changed it since (a newer backup run, most likely). Not archiving it:\n"@
                + joined_by(texts(gate.problems@), "\n"@),
        ),
{
}

/// An archived snapshot is listed with its short name, its time and its directories.
pub proof fn law_archived_words(s: ResticSnapshot)
    ensures
        archived_words(s) == s.short_id@ + "  "@ + s.time@ + "  "@ + joined_by(
            texts(s.paths@),
            ", "@,
        ),
{
}

/// A preview lists each snapshot that would go, under how many there are, and then how
/// many would stay.
pub proof fn law_preview(p: RetentionPreview, i: int)
    ensures
        ({
            let w = preview_words(p);
            let n = p.removed@.len() as int;
            &&& w.len() == n + 3
            &&& n == 0 ==> w[0] == "Would remove: none."@
            &&& n > 0 ==> w[0] == "Would remove "@ + decimal(n as nat) + " snapshot(s):"@
            &&& 0 <= i < n ==> w[i + 1] == "  "@ + p.removed@[i].short_id@ + "  "@
                + p.removed@[i].time@
            &&& w[n + 1] == "Would keep "@ + decimal(p.kept@.len()) + " snapshot(s)."@
            &&& w[n + 2] == "Run without --dry-run to actually apply this policy."@
        }),
{
}

/// Why a restore does not start: each obstacle under its own word, and in its own.
pub proof fn law_restore_refused(m: String, target: String, backup: String, needed: u64, free: u64)
    ensures
        restore_refused(RestoreObstacle::Pairing(m)) == ("pairing_invalid"@, m@),
        restore_refused(RestoreObstacle::FindMyEnabled) == ("find_my_enabled"@, FIND_MY_ON@),
        restore_refused(RestoreObstacle::OlderIos { target, backup }) == (
            "ios_version_mismatch"@,
            "Target device is on iOS "@ + target@ + ", but this backup is from iOS "@ + backup@
                + " — restoring backward isn't supported. Update the target device first."@,
        ),
        restore_refused(RestoreObstacle::LittleSpace { needed, free }) == (
            "not_enough_space"@,
            "Not enough free space on the target device: this backup needs "@ + gigabytes(
                needed as nat,
            ) + " GB, but only "@ + gigabytes(free as nat) + " GB is free. "@
                + "Free up space on the device and try again."@,
        ),
        restore_refused(RestoreObstacle::SpaceUnknown) == (
            "not_enough_space"@,
            TARGET_SPACE_UNKNOWN@,
        ),
{
}

/// A hexadecimal digit is worth what it says, in either case; nothing else is a digit.
pub proof fn law_hex_value(c: char, n: nat)
    requires
        n < 6,
    ensures
        hex_value(((48 + n) as u8) as char) == Some(n),
        hex_value('9') == Some(9nat),
        hex_value(((97 + n) as u8) as char) == Some(10 + n),
        hex_value(((65 + n) as u8) as char) == Some(10 + n),
        hex_value(c) is Some ==> ('0' <= c <= '9' || 'a' <= c <= 'f' || 'A' <= c <= 'F')
            && hex_value(c)->0 < 16,
{
}

/// A text spells bytes just where it has an even number of characters, all of them
/// digits; each byte is its two digits, the higher first.
pub proof fn law_hex_read(s: Seq<char>)
    ensures
        hex_read(s) is Some <==> s.len() % 2 == 0 && forall|i: int|
            0 <= i < s.len() ==> hex_value(#[trigger] s[i]) is Some,
        hex_read(s) matches Some(b) ==> b.len() * 2 == s.len() && forall|i: int|
            0 <= i < b.len() ==> #[trigger] b[i] == 16 * hex_value(s[2 * i])->0 + hex_value(
                s[2 * i + 1],
            )->0,
    decreases s.len(),
{
    let n = s.len() as int;
    if n >= 2 {
        let t = s.take(n - 2);
        law_hex_read(t);
        assert(forall|i: int| 0 <= i < n - 2 ==> #[trigger] s[i] == t[i]);
        if hex_read(s) is Some {
            assert forall|i: int| 0 <= i < n implies hex_value(#[trigger] s[i]) is Some by {
                if i < n - 2 {
                    assert(hex_value(t[i]) is Some);
                }
            }
            let b = hex_read(s)->0;
            let c = hex_read(t)->0;
            assert forall|i: int| 0 <= i < b.len() implies #[trigger] b[i] == 16 * hex_value(
                s[2 * i],
            )->0 + hex_value(s[2 * i + 1])->0 by {
                if i < c.len() {
                    assert(b[i] == c[i]);
                    assert(s[2 * i] == t[2 * i] && s[2 * i + 1] == t[2 * i + 1]);
                }
            }
        } else if n % 2 == 0 && forall|i: int| 0 <= i < n ==> hex_value(#[trigger] s[i]) is Some {
            assert forall|i: int| 0 <= i < t.len() implies hex_value(#[trigger] t[i]) is Some by {
                assert(hex_value(s[i]) is Some);
            }
            assert(hex_value(s[n - 2]) is Some && hex_value(s[n - 1]) is Some);
        }
    }
}

/// A file is decrypted where the manifest unlocks, the key is spelled right and the file
/// was read; what goes wrong first is told.
pub proof fn law_decrypted_file(
    manifest: Result<&[u8], String>,
    password: Seq<char>,
    key: Seq<char>,
    input: Seq<char>,
    data: Vec<u8>,
    words: String,
)
    ensures
        match (
            unlocked_manifest(
                file_members(file_view(manifest)),
                vstd::utf8::encode_utf8(password),
            ),
            hex_read(trim(key)),
        ) {
            (Err(e), _) => decrypted_file(manifest, password, key, input, Ok(data)) == Err::<
                Seq<u8>,
                Seq<char>,
            >(e.text()),
            (Ok(keys), None) => decrypted_file(manifest, password, key, input, Ok(data)) == Err::<
                Seq<u8>,
                Seq<char>,
            >("--encryption-key is not valid hex: "@ + hex_refused(trim(key))),
            (Ok(keys), Some(wrapped)) => {
                &&& decrypted_file(manifest, password, key, input, Err(words)) == Err::<
                    Seq<u8>,
                    Seq<char>,
                >("could not read "@ + input + ": "@ + words@)
                &&& decrypted(keys, data@, wrapped) matches Ok(plain) ==> decrypted_file(
                    manifest,
                    password,
                    key,
                    input,
                    Ok(data),
                ) == Ok::<Seq<u8>, Seq<char>>(plain)
                &&& decrypted(keys, data@, wrapped) matches Err(e) ==> decrypted_file(
                    manifest,
                    password,
                    key,
                    input,
                    Ok(data),
                ) == Err::<Seq<u8>, Seq<char>>(e.text())
            },
        },
{
}

/// A refusal has just one category and one message.
pub proof fn law_refuses(r: Refusal, category: Seq<char>, message: Seq<char>)
    ensures
        refuses(r, category, message) <==> category == r.category@ && message == r.message@,
{
}

} // verus!
