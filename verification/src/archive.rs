//! Archiving with restic: what it is told to do, and what it says.
use vstd::prelude::*;

use crate::error::{CradleError, ErrorView};
use crate::json::{
    find_member, json_member, json_object, number_views, object_views, parse_object, plain,
    write_object, written_members, JsonValue, JsonView,
};
use crate::paths::{join, joined};
use crate::text::{
    chars_of, contains, decimal, decimal_text, is_digit, law_numerals_read_back, lines, lines_of,
    mentions, part, same_text, signed_decimal, signed_decimal_text, texts, texts_push, trim,
    trimmed,
};

verus! {

broadcast use texts_push;

// --- errors ------------------------------------------------------------------------------

/// An error that restic reported, or that running it met.
#[derive(Debug)]
pub struct ResticError {
    pub code: Option<i64>,
    pub message: String,
}

/// What to do about an error code.
pub open spec fn hint_for(code: i64) -> Option<Seq<char>> {
    if code == 10 {
        Some("the repository doesn't exist at this URI yet — check the destination's uri"@)
    } else if code == 11 {
        Some(
            "the repository is locked by another process — wait for it, or run `restic unlock` on this repo if a previous run crashed"@,
        )
    } else if code == 12 {
        Some(
            "wrong repository password — the Keychain entry for this destination may have been changed or deleted outside Cradle"@,
        )
    } else {
        None
    }
}

/// What to do about an error code.
pub fn error_hint(code: i64) -> (r: Option<&'static str>)
    ensures
        match r {
            Some(s) => hint_for(code) == Some(s@),
            None => hint_for(code) is None,
        },
{
    if code == 10 {
        Some("the repository doesn't exist at this URI yet — check the destination's uri")
    } else if code == 11 {
        Some(
            "the repository is locked by another process — wait for it, or run `restic unlock` on this repo if a previous run crashed",
        )
    } else if code == 12 {
        Some(
            "wrong repository password — the Keychain entry for this destination may have been changed or deleted outside Cradle",
        )
    } else {
        None
    }
}

/// The error that a restic error is shown as, with what to do about it.
pub open spec fn shown(code: Option<i64>, message: Seq<char>) -> ErrorView {
    let hint = match code {
        Some(c) => hint_for(c),
        None => None,
    };
    match hint {
        Some(h) => ErrorView::Other("restic error: "@ + message + " — "@ + h),
        None => ErrorView::Other("restic error: "@ + message),
    }
}

impl ResticError {
    /// The error this is shown as.
    pub fn into_error(self) -> (e: CradleError)
        ensures
            e@ == shown(self.code, self.message@),
    {
        let hint = match self.code {
            Some(c) => error_hint(c),
            None => None,
        };
        let text = "restic error: ".to_owned().concat(self.message.as_str());
        match hint {
            Some(h) => CradleError::Other(text.concat(" — ").concat(h)),
            None => CradleError::Other(text),
        }
    }
}

// --- running restic ------------------------------------------------------------------------

/// How many lines of errors are kept.
pub const STDERR_TAIL_LINES: usize = 200;

/// The arguments of a restic command on a repository.
pub fn restic_args(uri: &str, args: &Vec<String>) -> (out: Vec<String>)
    ensures
        texts(out@) == seq!["--repo"@, uri@, "--json"@] + texts(args@),
{
    let mut out: Vec<String> = vec!["--repo".to_owned(), uri.to_owned(), "--json".to_owned()];
    let ghost head = texts(out@);
    assert(head =~= seq!["--repo"@, uri@, "--json"@]);
    let mut i: usize = 0;
    assert(texts(args@).take(0) =~= seq![]);
    assert(head + texts(args@).take(0) =~= head);
    while i < args.len()
        invariant
            i <= args@.len(),
            texts(out@) == head + texts(args@).take(i as int),
        decreases args@.len() - i,
    {
        out.push(args[i].clone());
        assert(texts(args@).take(i + 1) =~= texts(args@).take(i as int).push(args@[i as int]@));
        assert(texts(out@) =~= head + texts(args@).take(i + 1));
        i = i + 1;
    }
    assert(texts(args@).take(i as int) =~= texts(args@));
    out
}

/// Why restic could not be run.
#[derive(Debug)]
pub enum StartFailure {
    /// The repository's password could not be read.
    Password(CradleError),
    /// restic is not installed.
    Missing(CradleError),
    /// The process could not be started; the system's words for that.
    Spawn(String),
    /// The process could not be waited for; the system's words for that.
    Wait(String),
}

/// What is said when restic could not be run.
pub open spec fn start_words(f: StartFailure) -> Seq<char> {
    match f {
        StartFailure::Password(e) => "could not read repository password from Keychain: "@
            + e@.text(),
        StartFailure::Missing(e) => e@.text() + " (try `brew install restic`)"@,
        StartFailure::Spawn(words) => "could not start restic: "@ + words@,
        StartFailure::Wait(words) => "restic process error: "@ + words@,
    }
}

/// The error for a restic that could not be run.
pub fn start_failed(f: StartFailure) -> (e: ResticError)
    ensures
        e.code is None,
        e.message@ == start_words(f),
{
    let message = match f {
        StartFailure::Password(e) => "could not read repository password from Keychain: ".to_owned().concat(
            e.message().as_str(),
        ),
        StartFailure::Missing(e) => e.message().concat(" (try `brew install restic`)"),
        StartFailure::Spawn(words) => "could not start restic: ".to_owned().concat(words.as_str()),
        StartFailure::Wait(words) => "restic process error: ".to_owned().concat(words.as_str()),
    };
    ResticError { code: None, message }
}

/// Whether a line of output says anything.
pub fn is_filled(line: &str) -> (r: bool)
    ensures
        r == (trim(line@).len() > 0),
{
    trimmed(line).as_str().unicode_len() > 0
}

/// What restic reports when it exits with an error.
#[derive(Debug)]
pub struct ExitReport {
    pub code: i64,
    pub message: String,
}

/// The lines of the errors that a report is looked for in, trimmed.
pub fn error_lines(stderr_text: &str) -> (out: Vec<String>)
    ensures
        texts(out@) == lines(stderr_text@).map_values(|l: Seq<char>| trim(l)),
{
    let ls = lines_of(stderr_text);
    let ghost all = lines(stderr_text@);
    let ghost cut = |l: Seq<char>| trim(l);
    let mut out: Vec<String> = Vec::new();
    let mut i: usize = 0;
    assert(texts(out@) =~= all.take(0).map_values(cut));
    while i < ls.len()
        invariant
            i <= ls@.len(),
            texts(ls@) == all,
            cut == (|l: Seq<char>| trim(l)),
            texts(out@) == all.take(i as int).map_values(cut),
        decreases ls@.len() - i,
    {
        proof {
            assert(all[i as int] == texts(ls@)[i as int]);
            assert(texts(ls@)[i as int] == ls@[i as int]@);
            assert(all.take(i + 1).map_values(cut) =~= all.take(i as int).map_values(cut).push(
                cut(all[i as int]),
            ));
        }
        out.push(trimmed(ls[i].as_str()));
        i = i + 1;
    }
    assert(all.take(i as int) =~= all);
    out
}

/// The last report among `reports`.
pub open spec fn last_report(reports: Seq<Option<ExitReport>>) -> Option<ExitReport>
    decreases reports.len(),
{
    if reports.len() == 0 {
        None
    } else if reports.last() is Some {
        reports.last()
    } else {
        last_report(reports.drop_last())
    }
}

/// An exit status as it is printed for a person.
pub open spec fn exit_text(code: Option<i32>) -> Seq<char> {
    match code {
        Some(c) => "Some("@ + signed_decimal(c as int) + ")"@,
        None => "None"@,
    }
}

/// The code and the words of a failed restic: those of its last report, or its
/// exit status and whatever it printed.
pub open spec fn failure_of(
    stderr_text: Seq<char>,
    reports: Seq<Option<ExitReport>>,
    exit_code: Option<i32>,
) -> (Option<i64>, Seq<char>) {
    match last_report(reports) {
        Some(r) => (Some(r.code), r.message@),
        None => (
            match exit_code {
                Some(c) => Some(c as i64),
                None => None,
            },
            if trim(stderr_text).len() == 0 {
                "restic exited with status "@ + exit_text(exit_code) + " and no error output"@
            } else {
                trim(stderr_text)
            },
        ),
    }
}

/// The error of a failed restic, from its errors, what each line of them reads
/// as a report, and its exit status.
pub fn parse_error(
    stderr_text: &str,
    reports: &Vec<Option<ExitReport>>,
    exit_code: Option<i32>,
) -> (e: ResticError)
    ensures
        (e.code, e.message@) == failure_of(stderr_text@, reports@, exit_code),
{
    let mut n: usize = reports.len();
    assert(reports@.take(n as int) =~= reports@);
    while n > 0
        invariant
            n <= reports@.len(),
            last_report(reports@) == last_report(reports@.take(n as int)),
        decreases n,
    {
        proof {
            let now = reports@.take(n as int);
            assert(now.last() == reports@[n - 1]);
            assert(now.drop_last() =~= reports@.take(n - 1));
        }
        if let Some(r) = &reports[n - 1] {
            return ResticError { code: Some(r.code), message: r.message.clone() };
        }
        n = n - 1;
    }
    let said = trimmed(stderr_text);
    let message = if said.as_str().unicode_len() == 0 {
        let status = match exit_code {
            Some(c) => "Some(".to_owned().concat(signed_decimal_text(c as i64).as_str()).concat(
                ")",
            ),
            None => "None".to_owned(),
        };
        "restic exited with status ".to_owned().concat(status.as_str()).concat(
            " and no error output",
        )
    } else {
        said
    };
    let code: Option<i64> = match exit_code {
        Some(c) => Some(c as i64),
        None => None,
    };
    ResticError { code, message }
}

/// What came of running restic to its end: a clean exit is success, whatever it
/// printed; any other is the error it reports.
pub fn streamed(
    success: bool,
    stderr_text: &str,
    reports: &Vec<Option<ExitReport>>,
    code: Option<i32>,
) -> (r: Result<(), ResticError>)
    ensures
        r is Ok <==> success,
        r matches Err(e) ==> (e.code, e.message@) == failure_of(stderr_text@, reports@, code),
{
    if success {
        Ok(())
    } else {
        Err(parse_error(stderr_text, reports, code))
    }
}

/// Everything printed, each line with a line feed behind it.
pub open spec fn output_of(ls: Seq<Seq<char>>) -> Seq<char>
    decreases ls.len(),
{
    if ls.len() == 0 {
        seq![]
    } else {
        (output_of(ls.drop_last()) + ls.last()).push('\n')
    }
}

/// Everything printed, without white space at either end: one JSON text.
pub fn collect_output(ls: &Vec<String>) -> (out: String)
    ensures
        out@ == trim(output_of(texts(ls@))),
{
    let mut out = String::new();
    let ghost all = texts(ls@);
    let mut i: usize = 0;
    assert(out@ =~= output_of(all.take(0)));
    while i < ls.len()
        invariant
            i <= ls@.len(),
            all == texts(ls@),
            out@ == output_of(all.take(i as int)),
        decreases ls@.len() - i,
    {
        proof {
            assert(all.take(i + 1).drop_last() =~= all.take(i as int));
            assert(all.take(i + 1).last() == ls@[i as int]@);
        }
        out.append(ls[i].as_str());
        out.push('\n');
        i = i + 1;
    }
    assert(all.take(i as int) =~= all);
    trimmed(out.as_str())
}

/// Makes sure that a repository is there, from what `restic init` came to:
/// whether it was made just now.
pub fn ensure_initialized(init: Result<(), ResticError>) -> (r: Result<bool, CradleError>)
    ensures
        match (init, r) {
            (Ok(()), Ok(made)) => made,
            (Err(e), Ok(made)) => !made && contains(e.message@, "already exists"@),
            (Err(e), Err(x)) => !contains(e.message@, "already exists"@) && x@ == shown(
                e.code,
                e.message@,
            ),
            _ => false,
        },
{
    match init {
        Ok(()) => Ok(true),
        Err(e) => if mentions(e.message.as_str(), "already exists") {
            Ok(false)
        } else {
            Err(e.into_error())
        },
    }
}

// --- archiving -----------------------------------------------------------------------------

/// What restic did to archive a directory.
#[derive(Debug, Clone)]
pub struct BackupSummary {
    pub snapshot_id: String,
    pub total_bytes_processed: u64,
    pub total_files_processed: u64,
    pub data_added: u64,
}

/// A message of a running archive. Its percentage goes straight to whoever
/// shows it.
#[derive(Debug)]
pub enum BackupMessage {
    Status { total_bytes: u64, bytes_done: u64, files_done: Option<u64> },
    Summary(BackupSummary),
    Unknown,
}

/// What a message has to tell whoever shows progress.
#[derive(Debug, Clone, Copy, PartialEq, Eq, Structural)]
pub enum ArchiveProgress {
    Bytes { done: u64, total: u64 },
    Files(u32),
}

/// The arguments that archive a directory.
pub fn backup_args(source: &str) -> (args: Vec<String>)
    ensures
        texts(args@) == seq!["backup"@, source@],
{
    let args: Vec<String> = vec!["backup".to_owned(), source.to_owned()];
    assert(texts(args@) =~= seq!["backup"@, source@]);
    args
}

/// Takes in a message of a running archive: the last summary counts.
pub fn on_backup_message(summary: &mut Option<BackupSummary>, message: BackupMessage) -> (told: Vec<
    ArchiveProgress,
>)
    ensures
        match message {
            BackupMessage::Status { total_bytes, bytes_done, files_done } => {
                &&& *final(summary) == *old(summary)
                &&& told@ == seq![
                    ArchiveProgress::Bytes { done: bytes_done, total: total_bytes },
                ] + (match files_done {
                    Some(n) => seq![ArchiveProgress::Files(n as u32)],
                    None => seq![],
                })
            },
            BackupMessage::Summary(s) => *final(summary) == Some(s) && told@.len() == 0,
            BackupMessage::Unknown => *final(summary) == *old(summary) && told@.len() == 0,
        },
{
    let mut told: Vec<ArchiveProgress> = Vec::new();
    match message {
        BackupMessage::Status { total_bytes, bytes_done, files_done } => {
            told.push(ArchiveProgress::Bytes { done: bytes_done, total: total_bytes });
            if let Some(n) = files_done {
                told.push(ArchiveProgress::Files(#[verifier::truncate] (n as u32)));
            }
        },
        BackupMessage::Summary(s) => {
            *summary = Some(s);
        },
        BackupMessage::Unknown => {},
    }
    told
}

/// What came of archiving: without a summary nothing is known to be archived.
pub fn backup(ran: Result<(), ResticError>, summary: Option<BackupSummary>) -> (r: Result<
    BackupSummary,
    CradleError,
>)
    ensures
        match (ran, summary, r) {
            (Ok(()), Some(s), Ok(x)) => x == s,
            (Ok(()), None, Err(e)) => e@ == ErrorView::Other(
                "restic backup finished without a summary message"@,
            ),
            (Err(e), _, Err(x)) => x@ == shown(e.code, e.message@),
            _ => false,
        },
{
    match ran {
        Err(e) => Err(e.into_error()),
        Ok(()) => match summary {
            Some(s) => Ok(s),
            None => Err(
                CradleError::Other("restic backup finished without a summary message".to_owned()),
            ),
        },
    }
}

/// A snapshot in a repository.
#[derive(Debug, Clone)]
pub struct ResticSnapshot {
    pub id: String,
    pub short_id: String,
    pub time: String,
    pub paths: Vec<String>,
}

// --- restoring from an archive -----------------------------------------------------------------

/// What restic did to restore a snapshot.
#[derive(Debug, Clone)]
pub struct RestoreSummary {
    /// Where the backup lies.
    pub path: String,
    pub total_files: u64,
    pub files_restored: u64,
    pub total_bytes: u64,
}

impl Default for RestoreSummary {
    fn default() -> (s: RestoreSummary)
        ensures
            s.path@.len() == 0,
            s.total_files == 0,
            s.files_restored == 0,
            s.total_bytes == 0,
    {
        RestoreSummary { path: String::new(), total_files: 0, files_restored: 0, total_bytes: 0 }
    }
}

/// A message of a running restore. Its percentage goes straight to whoever
/// shows it.
#[derive(Debug)]
pub enum RestoreMessage {
    Status { total_bytes: u64, bytes_restored: u64, files_restored: u64 },
    Summary { total_files: u64, files_restored: u64, total_bytes: u64 },
    Unknown,
}

/// What restic is told to restore, and where the backup will lie then.
#[derive(Debug)]
pub struct RestorePlan {
    pub args: Vec<String>,
    pub path: String,
}

/// Whether a snapshot is the one called `id`, in full or in short.
pub open spec fn is_called(s: ResticSnapshot, id: Seq<char>) -> bool {
    s.id@ == id || s.short_id@ == id
}

/// The place of the first snapshot called `id`, or their number.
pub open spec fn place_called(snapshots: Seq<ResticSnapshot>, id: Seq<char>) -> nat
    decreases snapshots.len(),
{
    if snapshots.len() == 0 || is_called(snapshots[0], id) {
        0
    } else {
        1 + place_called(snapshots.skip(1), id)
    }
}

/// A path without the slashes it starts with.
pub open spec fn relative(s: Seq<char>) -> Seq<char>
    decreases s.len(),
{
    if s.len() > 0 && s[0] == '/' {
        relative(s.skip(1))
    } else {
        s
    }
}

/// A path without the slashes it starts with.
fn without_slashes(s: &str) -> (out: String)
    ensures
        out@ == relative(s@),
{
    let v = chars_of(s);
    let mut i: usize = 0;
    assert(v@.skip(0) =~= v@);
    while i < v.len() && v[i] == '/'
        invariant
            i <= v@.len(),
            relative(v@) == relative(v@.skip(i as int)),
        decreases v@.len() - i,
    {
        assert(v@.skip(i as int).skip(1) =~= v@.skip(i + 1));
        i = i + 1;
    }
    assert(v@.subrange(i as int, v@.len() as int) =~= v@.skip(i as int));
    part(&v, i, v.len())
}

/// Works out how to restore a snapshot below a scratch directory: restic puts
/// it there under the path it was archived from.
pub fn plan_restore(snapshots: &Vec<ResticSnapshot>, snapshot_id: &str, scratch_dir: &str) -> (r:
    Result<RestorePlan, CradleError>)
    ensures
        ({
            let at = place_called(snapshots@, snapshot_id@) as int;
            match r {
                Ok(plan) => {
                    &&& at < snapshots@.len()
                    &&& snapshots@[at].paths@.len() > 0
                    &&& texts(plan.args@) == seq![
                        "restore"@,
                        snapshots@[at].id@,
                        "--target"@,
                        scratch_dir@,
                    ]
                    &&& plan.path@ == joined(scratch_dir@, relative(snapshots@[at].paths@[0]@))
                },
                Err(e) => if at == snapshots@.len() {
                    e@ == ErrorView::Other(
                        "no snapshot '"@ + snapshot_id@ + "' in this repository"@,
                    )
                } else {
                    snapshots@[at].paths@.len() == 0 && e@ == ErrorView::Other(
                        "snapshot has no recorded path"@,
                    )
                },
            }
        }),
{
    let mut i: usize = 0;
    assert(snapshots@.skip(0) =~= snapshots@);
    while i < snapshots.len()
        invariant
            i <= snapshots@.len(),
            place_called(snapshots@, snapshot_id@) == i + place_called(
                snapshots@.skip(i as int),
                snapshot_id@,
            ),
        decreases snapshots@.len() - i,
    {
        let s = &snapshots[i];
        assert(snapshots@.skip(i as int)[0] == snapshots@[i as int]);
        if same_text(s.id.as_str(), snapshot_id) || same_text(s.short_id.as_str(), snapshot_id) {
            if s.paths.len() == 0 {
                return Err(CradleError::Other("snapshot has no recorded path".to_owned()));
            }
            let args: Vec<String> = vec![
                "restore".to_owned(),
                s.id.clone(),
                "--target".to_owned(),
                scratch_dir.to_owned(),
            ];
            assert(texts(args@) =~= seq!["restore"@, s.id@, "--target"@, scratch_dir@]);
            let path = join(scratch_dir, without_slashes(s.paths[0].as_str()).as_str());
            return Ok(RestorePlan { args, path });
        }
        assert(snapshots@.skip(i as int).skip(1) =~= snapshots@.skip(i + 1));
        i = i + 1;
    }
    Err(
        CradleError::Other(
            "no snapshot '".to_owned().concat(snapshot_id).concat("' in this repository"),
        ),
    )
}

/// Takes in a message of a running restore: the last summary counts.
pub fn on_restore_message(
    summary: &mut Option<RestoreSummary>,
    message: RestoreMessage,
) -> (told: Vec<ArchiveProgress>)
    ensures
        match message {
            RestoreMessage::Status { total_bytes, bytes_restored, files_restored } => {
                &&& *final(summary) == *old(summary)
                &&& told@ == seq![
                    ArchiveProgress::Bytes { done: bytes_restored, total: total_bytes },
                    ArchiveProgress::Files(files_restored as u32),
                ]
            },
            RestoreMessage::Summary { total_files, files_restored, total_bytes } => {
                &&& told@.len() == 0
                &&& *final(summary) matches Some(s) && s.path@.len() == 0 && s.total_files
                    == total_files && s.files_restored == files_restored && s.total_bytes
                    == total_bytes
            },
            RestoreMessage::Unknown => *final(summary) == *old(summary) && told@.len() == 0,
        },
{
    let mut told: Vec<ArchiveProgress> = Vec::new();
    match message {
        RestoreMessage::Status { total_bytes, bytes_restored, files_restored } => {
            told.push(ArchiveProgress::Bytes { done: bytes_restored, total: total_bytes });
            told.push(ArchiveProgress::Files(#[verifier::truncate] (files_restored as u32)));
        },
        RestoreMessage::Summary { total_files, files_restored, total_bytes } => {
            *summary = Some(
                RestoreSummary { path: String::new(), total_files, files_restored, total_bytes },
            );
        },
        RestoreMessage::Unknown => {},
    }
    told
}

/// What came of restoring a snapshot, with where the backup lies.
pub fn restore(
    plan: RestorePlan,
    ran: Result<(), ResticError>,
    summary: Option<RestoreSummary>,
) -> (r: Result<RestoreSummary, CradleError>)
    ensures
        match (ran, summary, r) {
            (Ok(()), Some(s), Ok(x)) => x.path@ == plan.path@ && x.total_files == s.total_files
                && x.files_restored == s.files_restored && x.total_bytes == s.total_bytes,
            (Ok(()), None, Err(e)) => e@ == ErrorView::Other(
                "restic restore finished without a summary message"@,
            ),
            (Err(e), _, Err(x)) => x@ == shown(e.code, e.message@),
            _ => false,
        },
{
    match ran {
        Err(e) => Err(e.into_error()),
        Ok(()) => match summary {
            Some(s) => Ok(
                RestoreSummary {
                    path: plan.path,
                    total_files: s.total_files,
                    files_restored: s.files_restored,
                    total_bytes: s.total_bytes,
                },
            ),
            None => Err(
                CradleError::Other("restic restore finished without a summary message".to_owned()),
            ),
        },
    }
}

// --- retention -----------------------------------------------------------------------------

/// How many snapshots are kept.
#[derive(Debug, Clone)]
pub struct RetentionPolicy {
    pub keep_last: Option<u32>,
    pub keep_daily: Option<u32>,
    pub keep_weekly: Option<u32>,
    pub keep_monthly: Option<u32>,
}

impl Default for RetentionPolicy {
    fn default() -> (p: RetentionPolicy)
        ensures
            p == (RetentionPolicy {
                keep_last: None,
                keep_daily: None,
                keep_weekly: None,
                keep_monthly: None,
            }),
    {
        RetentionPolicy { keep_last: None, keep_daily: None, keep_weekly: None, keep_monthly: None }
    }
}

/// A flag and its number, where there is one.
pub open spec fn keep_flag(flag: Seq<char>, n: Option<u32>) -> Seq<Seq<char>> {
    match n {
        Some(k) => seq![flag, decimal(k as nat)],
        None => seq![],
    }
}

/// Whether arguments give a flag its number: the flag is there just when there is a
/// number, and wherever it is, that number follows.
pub open spec fn gives(args: Seq<Seq<char>>, flag: Seq<char>, n: Option<u32>) -> bool {
    &&& args.contains(flag) <==> n is Some
    &&& forall|i: int|
        0 <= i < args.len() && #[trigger] args[i] == flag ==> i + 1 < args.len() && args[i + 1]
            == decimal(n->0 as nat)
}

/// The flags differ from each other, from every number and from what stands in
/// front of them.
proof fn flags_stand_apart()
    ensures
        "--keep-last"@ != "--keep-daily"@,
        "--keep-last"@ != "--keep-weekly"@,
        "--keep-last"@ != "--keep-monthly"@,
        "--keep-daily"@ != "--keep-weekly"@,
        "--keep-daily"@ != "--keep-monthly"@,
        "--keep-weekly"@ != "--keep-monthly"@,
        forall|n: nat| #[trigger] decimal(n) != "--keep-last"@,
        forall|n: nat| #[trigger] decimal(n) != "--keep-daily"@,
        forall|n: nat| #[trigger] decimal(n) != "--keep-weekly"@,
        forall|n: nat| #[trigger] decimal(n) != "--keep-monthly"@,
        "forget"@.len() == 6,
        "--prune"@.len() == 7,
        "--dry-run"@.len() == 9,
        "--keep-last"@.len() == 11,
        "--keep-daily"@.len() == 12,
        "--keep-weekly"@.len() == 13,
        "--keep-monthly"@.len() == 14,
{
    reveal_strlit("--keep-last");
    reveal_strlit("--keep-daily");
    reveal_strlit("--keep-weekly");
    reveal_strlit("--keep-monthly");
    reveal_strlit("forget");
    reveal_strlit("--prune");
    reveal_strlit("--dry-run");
    assert("--keep-last"@.len() == 11 && "--keep-daily"@.len() == 12 && "--keep-weekly"@.len()
        == 13 && "--keep-monthly"@.len() == 14);
    assert forall|n: nat| #[trigger] decimal(n) != "--keep-last"@ && decimal(n)
        != "--keep-daily"@ && decimal(n) != "--keep-weekly"@ && decimal(n) != "--keep-monthly"@ by {
        law_numerals_read_back(n, n);
        assert(is_digit(decimal(n)[0]));
        assert("--keep-last"@[0] == '-' && "--keep-daily"@[0] == '-' && "--keep-weekly"@[0] == '-'
            && "--keep-monthly"@[0] == '-');
    }
}

/// A flag between arguments that do not hold it is given its number.
proof fn gives_between(a: Seq<Seq<char>>, flag: Seq<char>, n: Option<u32>, b: Seq<Seq<char>>)
    requires
        !a.contains(flag),
        !b.contains(flag),
        n matches Some(k) ==> decimal(k as nat) != flag,
    ensures
        gives(a + keep_flag(flag, n) + b, flag, n),
{
    let all = a + keep_flag(flag, n) + b;
    let m = keep_flag(flag, n).len() as int;
    assert forall|i: int| 0 <= i < all.len() && #[trigger] all[i] == flag implies n is Some && i
        == a.len() by {
        if i < a.len() {
            assert(a.contains(a[i]));
        } else if i >= a.len() + m {
            assert(b.contains(b[i - a.len() - m]));
        }
    }
    if n is Some {
        assert(all[a.len() as int] == flag);
        assert(all[a.len() as int + 1] == decimal(n->0 as nat));
    }
}

/// What arguments give, they give behind others that do not hold the flag.
proof fn gives_behind(
    head: Seq<Seq<char>>,
    args: Seq<Seq<char>>,
    flag: Seq<char>,
    n: Option<u32>,
)
    requires
        !head.contains(flag),
        gives(args, flag, n),
    ensures
        gives(head + args, flag, n),
{
    let all = head + args;
    assert forall|i: int| 0 <= i < all.len() && #[trigger] all[i] == flag implies i + 1 < all.len()
        && all[i + 1] == decimal(n->0 as nat) && n is Some by {
        if i < head.len() {
            assert(head.contains(head[i]));
        } else {
            assert(args[i - head.len()] == flag);
            assert(args.contains(flag));
        }
    }
    if args.contains(flag) {
        let k = choose|k: int| 0 <= k < args.len() && args[k] == flag;
        assert(all[head.len() + k] == flag);
    }
}

/// Each period's flag is given the number that the policy has for that period, and
/// is not there where it has none.
pub proof fn law_each_flag_has_its_number(p: RetentionPolicy)
    ensures
        gives(p.flags(), "--keep-last"@, p.keep_last),
        gives(p.flags(), "--keep-daily"@, p.keep_daily),
        gives(p.flags(), "--keep-weekly"@, p.keep_weekly),
        gives(p.flags(), "--keep-monthly"@, p.keep_monthly),
        p.flags().len() == (if p.keep_last is Some {
            2int
        } else {
            0
        }) + (if p.keep_daily is Some {
            2int
        } else {
            0
        }) + (if p.keep_weekly is Some {
            2int
        } else {
            0
        }) + (if p.keep_monthly is Some {
            2int
        } else {
            0
        }),
{
    flags_stand_apart();
    let l = keep_flag("--keep-last"@, p.keep_last);
    let d = keep_flag("--keep-daily"@, p.keep_daily);
    let w = keep_flag("--keep-weekly"@, p.keep_weekly);
    let m = keep_flag("--keep-monthly"@, p.keep_monthly);
    let none = Seq::<Seq<char>>::empty();
    gives_between(none, "--keep-last"@, p.keep_last, d + w + m);
    gives_between(l, "--keep-daily"@, p.keep_daily, w + m);
    gives_between(l + d, "--keep-weekly"@, p.keep_weekly, m);
    gives_between(l + d + w, "--keep-monthly"@, p.keep_monthly, none);
    assert(p.flags() =~= none + l + (d + w + m));
    assert(p.flags() =~= l + d + (w + m));
    assert(p.flags() =~= l + d + w + m);
    assert(p.flags() =~= l + d + w + m + none);
}

impl RetentionPolicy {
    /// The flags that tell restic this policy.
    pub open spec fn flags(&self) -> Seq<Seq<char>> {
        keep_flag("--keep-last"@, self.keep_last) + keep_flag("--keep-daily"@, self.keep_daily)
            + keep_flag("--keep-weekly"@, self.keep_weekly) + keep_flag(
            "--keep-monthly"@,
            self.keep_monthly,
        )
    }

    /// Whether this policy keeps nothing on purpose.
    pub open spec fn is_blank(&self) -> bool {
        self.keep_last is None && self.keep_daily is None && self.keep_weekly is None
            && self.keep_monthly is None
    }

    /// The flags that tell restic this policy.
    pub fn to_args(&self) -> (args: Vec<String>)
        ensures
            texts(args@) == self.flags(),
            args@.len() == 0 <==> self.is_blank(),
            gives(texts(args@), "--keep-last"@, self.keep_last),
            gives(texts(args@), "--keep-daily"@, self.keep_daily),
            gives(texts(args@), "--keep-weekly"@, self.keep_weekly),
            gives(texts(args@), "--keep-monthly"@, self.keep_monthly),
    {
        proof {
            law_each_flag_has_its_number(*self);
        }
        let mut args: Vec<String> = Vec::new();
        push_keep(&mut args, "--keep-last", self.keep_last);
        push_keep(&mut args, "--keep-daily", self.keep_daily);
        push_keep(&mut args, "--keep-weekly", self.keep_weekly);
        push_keep(&mut args, "--keep-monthly", self.keep_monthly);
        assert(texts(args@) =~= self.flags());
        assert(texts(args@).len() == args@.len());
        args
    }

    /// This policy as the JSON text it is kept as.
    pub open spec fn json(&self) -> Seq<char> {
        seq!['{'] + written_members(
            seq![
                ("keep_daily"@, self.keep_daily),
                ("keep_last"@, self.keep_last),
                ("keep_monthly"@, self.keep_monthly),
                ("keep_weekly"@, self.keep_weekly),
            ],
        ) + seq!['}']
    }

    /// This policy as the JSON text it is kept as.
    pub fn to_json(&self) -> (s: String)
        ensures
            s@ == self.json(),
    {
        let members: Vec<(String, Option<u32>)> = vec![
            ("keep_daily".to_owned(), self.keep_daily),
            ("keep_last".to_owned(), self.keep_last),
            ("keep_monthly".to_owned(), self.keep_monthly),
            ("keep_weekly".to_owned(), self.keep_weekly),
        ];
        proof {
            keys_in_order();
            assert(number_views(members@) =~= seq![
                ("keep_daily"@, self.keep_daily),
                ("keep_last"@, self.keep_last),
                ("keep_monthly"@, self.keep_monthly),
                ("keep_weekly"@, self.keep_weekly),
            ]);
        }
        write_object(members)
    }
}

/// Two texts that first differ at `n` are ordered as they differ.
proof fn less_at(a: Seq<char>, b: Seq<char>, n: nat)
    requires
        n < a.len(),
        n < b.len(),
        forall|i: int| 0 <= i < n ==> a[i] == b[i],
        a[n as int] < b[n as int],
    ensures
        crate::catalog::text_less(a, b),
    decreases n,
{
    if n > 0 {
        less_at(a.skip(1), b.skip(1), (n - 1) as nat);
    }
}

/// The keys a policy is kept under are plain and in ascending order.
proof fn keys_in_order()
    ensures
        plain("keep_daily"@),
        plain("keep_last"@),
        plain("keep_monthly"@),
        plain("keep_weekly"@),
        crate::catalog::text_less("keep_daily"@, "keep_last"@),
        crate::catalog::text_less("keep_daily"@, "keep_monthly"@),
        crate::catalog::text_less("keep_daily"@, "keep_weekly"@),
        crate::catalog::text_less("keep_last"@, "keep_monthly"@),
        crate::catalog::text_less("keep_last"@, "keep_weekly"@),
        crate::catalog::text_less("keep_monthly"@, "keep_weekly"@),
{
    reveal_strlit("keep_daily");
    reveal_strlit("keep_last");
    reveal_strlit("keep_monthly");
    reveal_strlit("keep_weekly");
    less_at("keep_daily"@, "keep_last"@, 5);
    less_at("keep_daily"@, "keep_monthly"@, 5);
    less_at("keep_daily"@, "keep_weekly"@, 5);
    less_at("keep_last"@, "keep_monthly"@, 5);
    less_at("keep_last"@, "keep_weekly"@, 5);
    less_at("keep_monthly"@, "keep_weekly"@, 5);
}

/// Adds a flag and its number, where there is one.
fn push_keep(args: &mut Vec<String>, flag: &str, n: Option<u32>)
    ensures
        texts(final(args)@) == texts(old(args)@) + keep_flag(flag@, n),
{
    let ghost before = texts(args@);
    if let Some(k) = n {
        args.push(flag.to_owned());
        args.push(decimal_text(k as u64));
    }
    assert(texts(args@) =~= before + keep_flag(flag@, n));
}

/// What is said when no policy is given.
pub const NO_POLICY: &'static str = "no retention policy given — pass at least one of keep_last/keep_daily/keep_weekly/keep_monthly";

/// The flags of a policy; a blank one is refused, for it would keep nothing.
pub fn require_policy_args(policy: &RetentionPolicy) -> (r: Result<Vec<String>, CradleError>)
    ensures
        match r {
            Ok(args) => !policy.is_blank() && texts(args@) == policy.flags() && gives(texts(args@), "--keep-last"@, policy.keep_last)
                && gives(texts(args@), "--keep-daily"@, policy.keep_daily) && gives(
                texts(args@),
                "--keep-weekly"@,
                policy.keep_weekly,
            ) && gives(texts(args@), "--keep-monthly"@, policy.keep_monthly),
            Err(e) => policy.is_blank() && e@ == ErrorView::Other(NO_POLICY@),
        },
{
    let args = policy.to_args();
    if args.len() == 0 {
        Err(CradleError::Other(NO_POLICY.to_owned()))
    } else {
        Ok(args)
    }
}

/// The arguments that apply a policy: for real, or to see what it would do.
pub fn forget_args(policy: &RetentionPolicy, dry_run: bool) -> (r: Result<Vec<String>, CradleError>)
    ensures
        match r {
            Ok(args) => !policy.is_blank() && texts(args@) == seq![
                "forget"@,
                if dry_run {
                    "--dry-run"@
                } else {
                    "--prune"@
                },
            ] + policy.flags() && gives(texts(args@), "--keep-last"@, policy.keep_last)
                && gives(texts(args@), "--keep-daily"@, policy.keep_daily) && gives(
                texts(args@),
                "--keep-weekly"@,
                policy.keep_weekly,
            ) && gives(texts(args@), "--keep-monthly"@, policy.keep_monthly),
            Err(e) => policy.is_blank() && e@ == ErrorView::Other(NO_POLICY@),
        },
{
    let flags = match require_policy_args(policy) {
        Ok(flags) => flags,
        Err(e) => return Err(e),
    };
    proof {
        flags_stand_apart();
        law_each_flag_has_its_number(*policy);
    }
    let mut args: Vec<String> = vec![
        "forget".to_owned(),
        if dry_run {
            "--dry-run".to_owned()
        } else {
            "--prune".to_owned()
        },
    ];
    let ghost head = texts(args@);
    assert(head =~= seq![
        "forget"@,
        if dry_run {
            "--dry-run"@
        } else {
            "--prune"@
        },
    ]);
    let mut i: usize = 0;
    assert(head + texts(flags@).take(0) =~= head);
    while i < flags.len()
        invariant
            i <= flags@.len(),
            texts(args@) == head + texts(flags@).take(i as int),
        decreases flags@.len() - i,
    {
        args.push(flags[i].clone());
        assert(texts(flags@).take(i + 1) =~= texts(flags@).take(i as int).push(
            flags@[i as int]@,
        ));
        assert(texts(args@) =~= head + texts(flags@).take(i + 1));
        i = i + 1;
    }
    assert(texts(flags@).take(i as int) =~= texts(flags@));
    proof {
        gives_behind(head, texts(flags@), "--keep-last"@, policy.keep_last);
        gives_behind(head, texts(flags@), "--keep-daily"@, policy.keep_daily);
        gives_behind(head, texts(flags@), "--keep-weekly"@, policy.keep_weekly);
        gives_behind(head, texts(flags@), "--keep-monthly"@, policy.keep_monthly);
    }
    Ok(args)
}

/// What restic reports of one group of snapshots: those it keeps and those it
/// removes, each as a JSON text.
#[derive(Debug)]
pub struct ForgetGroup {
    pub keep: Option<Vec<String>>,
    pub remove: Option<Vec<String>>,
}

/// A snapshot that a policy would keep or remove.
#[derive(Debug, Clone)]
pub struct RetentionPreviewEntry {
    pub short_id: String,
    pub time: String,
}

/// What a policy would do.
#[derive(Debug, Clone)]
pub struct RetentionPreview {
    pub kept: Vec<RetentionPreviewEntry>,
    pub removed: Vec<RetentionPreviewEntry>,
}

/// The text called `key` of a reported snapshot, `?` where it has none.
pub open spec fn text_or_unknown(
    object: Option<Seq<(Seq<char>, JsonView)>>,
    key: Seq<char>,
) -> Seq<char> {
    match object {
        Some(members) => match json_member(members, key) {
            Some(JsonView::Text(s)) => s,
            _ => "?"@,
        },
        None => "?"@,
    }
}

/// The views of several entries.
pub open spec fn entry_views(v: Seq<RetentionPreviewEntry>) -> Seq<(Seq<char>, Seq<char>)> {
    v.map_values(|e: RetentionPreviewEntry| (e.short_id@, e.time@))
}

/// The entry of a reported snapshot.
pub open spec fn entry_of(text: Seq<char>) -> (Seq<char>, Seq<char>) {
    (
        text_or_unknown(json_object(text), "short_id"@),
        text_or_unknown(json_object(text), "time"@),
    )
}

/// The reported snapshots of a side that may be missing.
pub open spec fn side(v: Option<Vec<String>>) -> Seq<Seq<char>> {
    match v {
        Some(texts_of) => texts(texts_of@),
        None => seq![],
    }
}

/// The text called `key` of a parsed snapshot, `?` where it has none.
pub fn member_or_unknown(object: &Option<Vec<(String, JsonValue)>>, key: &str) -> (s: String)
    ensures
        s@ == text_or_unknown(
            match *object {
                Some(members) => Some(object_views(members@)),
                None => None,
            },
            key@,
        ),
{
    match object {
        Some(members) => match find_member(members, key) {
            Some(JsonValue::Text(s)) => s.clone(),
            _ => "?".to_owned(),
        },
        None => "?".to_owned(),
    }
}

/// The entries of the reported snapshots of one side.
pub fn parse_preview_entries(values: &Option<Vec<String>>) -> (out: Vec<RetentionPreviewEntry>)
    ensures
        entry_views(out@) == side(*values).map_values(|t: Seq<char>| entry_of(t)),
{
    let ghost all = side(*values);
    let ghost entry = |t: Seq<char>| entry_of(t);
    let mut out: Vec<RetentionPreviewEntry> = Vec::new();
    assert(entry_views(out@) =~= all.take(0).map_values(entry));
    if let Some(v) = values {
        let mut i: usize = 0;
        while i < v.len()
            invariant
                i <= v@.len(),
                all == texts(v@),
                entry == (|t: Seq<char>| entry_of(t)),
                entry_views(out@) == all.take(i as int).map_values(entry),
            decreases v@.len() - i,
        {
            let object = parse_object(v[i].as_str());
            let e = RetentionPreviewEntry {
                short_id: member_or_unknown(&object, "short_id"),
                time: member_or_unknown(&object, "time"),
            };
            proof {
                assert(all[i as int] == v@[i as int]@);
                assert(entry_views(out@.push(e)) =~= entry_views(out@).push((e.short_id@, e.time@)));
                assert(all.take(i + 1).map_values(entry) =~= all.take(i as int).map_values(
                    entry,
                ).push(entry(all[i as int])));
            }
            out.push(e);
            i = i + 1;
        }
        assert(all.take(i as int) =~= all);
    } else {
        assert(all.take(0) =~= all);
    }
    out
}

/// Every snapshot kept, or removed, by the groups.
pub open spec fn all_reported(groups: Seq<ForgetGroup>, kept: bool) -> Seq<Seq<char>>
    decreases groups.len(),
{
    if groups.len() == 0 {
        seq![]
    } else {
        all_reported(groups.drop_last(), kept) + side(
            if kept {
                groups.last().keep
            } else {
                groups.last().remove
            },
        )
    }
}

/// The entries of one side of all groups.
fn entries_of(groups: &Vec<ForgetGroup>, kept: bool) -> (out: Vec<RetentionPreviewEntry>)
    ensures
        entry_views(out@) == all_reported(groups@, kept).map_values(|t: Seq<char>| entry_of(t)),
{
    let ghost entry = |t: Seq<char>| entry_of(t);
    let mut out: Vec<RetentionPreviewEntry> = Vec::new();
    let mut i: usize = 0;
    assert(entry_views(out@) =~= all_reported(groups@.take(0), kept).map_values(entry));
    while i < groups.len()
        invariant
            i <= groups@.len(),
            entry == (|t: Seq<char>| entry_of(t)),
            entry_views(out@) == all_reported(groups@.take(i as int), kept).map_values(entry),
        decreases groups@.len() - i,
    {
        let mut more = if kept {
            parse_preview_entries(&groups[i].keep)
        } else {
            parse_preview_entries(&groups[i].remove)
        };
        proof {
            let now = groups@.take(i + 1);
            assert(now.drop_last() =~= groups@.take(i as int));
            assert(now.last() == groups@[i as int]);
            let s = side(
                if kept {
                    groups@[i as int].keep
                } else {
                    groups@[i as int].remove
                },
            );
            assert(entry_views(out@ + more@) =~= entry_views(out@) + entry_views(more@));
            assert((all_reported(groups@.take(i as int), kept) + s).map_values(entry)
                =~= all_reported(groups@.take(i as int), kept).map_values(entry) + s.map_values(
                entry,
            ));
        }
        out.append(&mut more);
        i = i + 1;
    }
    assert(groups@.take(i as int) =~= groups@);
    out
}

/// What a policy would do, from what restic reports of a dry run.
pub fn preview_retention(groups: &Vec<ForgetGroup>) -> (p: RetentionPreview)
    ensures
        entry_views(p.kept@) == all_reported(groups@, true).map_values(
            |t: Seq<char>| entry_of(t),
        ),
        entry_views(p.removed@) == all_reported(groups@, false).map_values(
            |t: Seq<char>| entry_of(t),
        ),
{
    RetentionPreview { kept: entries_of(groups, true), removed: entries_of(groups, false) }
}

/// What applying a policy did.
#[derive(Debug, Clone)]
pub struct ForgetSummary {
    pub kept: u64,
    pub removed: u64,
}

/// The number of reported snapshots never falls as groups are added.
proof fn reported_grows(groups: Seq<ForgetGroup>, kept: bool, n: int)
    requires
        0 <= n <= groups.len(),
    ensures
        all_reported(groups.take(n), kept).len() <= all_reported(groups, kept).len(),
    decreases groups.len(),
{
    if n < groups.len() {
        reported_grows(groups.drop_last(), kept, n);
        assert(groups.drop_last().take(n) =~= groups.take(n));
    } else {
        assert(groups.take(n) =~= groups);
    }
}

/// How many snapshots one side of all groups has.
fn count_of(groups: &Vec<ForgetGroup>, kept: bool) -> (n: u64)
    requires
        all_reported(groups@, kept).len() <= u64::MAX,
    ensures
        n == all_reported(groups@, kept).len(),
{
    let mut n: u64 = 0;
    let mut i: usize = 0;
    while i < groups.len()
        invariant
            i <= groups@.len(),
            all_reported(groups@, kept).len() <= u64::MAX,
            n == all_reported(groups@.take(i as int), kept).len(),
        decreases groups@.len() - i,
    {
        proof {
            reported_grows(groups@, kept, i + 1);
            assert(groups@.take(i + 1).drop_last() =~= groups@.take(i as int));
            assert(groups@.take(i + 1).last() == groups@[i as int]);
        }
        let part = if kept {
            &groups[i].keep
        } else {
            &groups[i].remove
        };
        if let Some(v) = part {
            assert(texts(v@).len() == v@.len());
            n = n + v.len() as u64;
        }
        i = i + 1;
    }
    assert(groups@.take(i as int) =~= groups@);
    n
}

/// What applying a policy did, from what restic reports of it.
pub fn forget_and_prune(groups: &Vec<ForgetGroup>) -> (s: ForgetSummary)
    requires
        all_reported(groups@, true).len() <= u64::MAX,
        all_reported(groups@, false).len() <= u64::MAX,
    ensures
        s.kept == all_reported(groups@, true).len(),
        s.removed == all_reported(groups@, false).len(),
{
    ForgetSummary { kept: count_of(groups, true), removed: count_of(groups, false) }
}

/// A policy gives restic something to keep by just when it is not blank: what is
/// refused is no more than what would keep nothing.
pub proof fn law_blank_policy_gives_no_flags(p: RetentionPolicy)
    ensures
        p.is_blank() <==> p.flags().len() == 0,
{
}

// --- checking a repository -------------------------------------------------------------------

/// What a check of a repository found.
#[derive(Debug, Clone, Copy, PartialEq, Eq, Structural)]
pub struct CheckSummary {
    pub num_errors: u64,
}

/// How thoroughly a repository is checked.
#[derive(Debug, Clone, Copy, PartialEq, Eq, Structural)]
pub enum CheckMode {
    /// Its structure only.
    Quick,
    /// Every byte.
    Full,
    /// A random part of its data.
    Sample { percent: u8 },
}

/// `percent`, at least one and at most a hundred.
pub open spec fn clamped(percent: u8) -> u8 {
    if percent < 1 {
        1
    } else if percent > 100 {
        100
    } else {
        percent
    }
}

impl CheckMode {
    /// The arguments that this adds to a check.
    pub open spec fn flags(self) -> Seq<Seq<char>> {
        match self {
            CheckMode::Quick => seq![],
            CheckMode::Full => seq!["--read-data"@],
            CheckMode::Sample { percent } => seq![
                "--read-data-subset="@ + decimal(clamped(percent) as nat) + "%"@,
            ],
        }
    }

    /// The arguments that this adds to a check.
    pub fn extra_args(self) -> (args: Vec<String>)
        ensures
            texts(args@) == self.flags(),
    {
        let mut args: Vec<String> = Vec::new();
        match self {
            CheckMode::Quick => {},
            CheckMode::Full => {
                args.push("--read-data".to_owned());
            },
            CheckMode::Sample { percent } => {
                let p: u8 = if percent < 1 {
                    1
                } else if percent > 100 {
                    100
                } else {
                    percent
                };
                args.push(
                    "--read-data-subset=".to_owned().concat(
                        decimal_text(p as u64).as_str(),
                    ).concat("%"),
                );
            },
        }
        assert(texts(args@) =~= self.flags());
        args
    }

    /// The arguments of a check.
    pub fn check_args(self) -> (args: Vec<String>)
        ensures
            texts(args@) == seq!["check"@] + self.flags(),
    {
        let mut args: Vec<String> = vec!["check".to_owned()];
        let mut more = self.extra_args();
        assert(texts(args@ + more@) =~= texts(args@) + texts(more@));
        args.append(&mut more);
        assert(texts(args@) =~= seq!["check"@] + self.flags());
        args
    }

    /// What this check does, for a person.
    pub open spec fn words(self) -> Seq<char> {
        match self {
            CheckMode::Quick => "checking repository structure (not pack contents — use --full or --sample for that)"@,
            CheckMode::Full => "reading and verifying every byte in the repository — this can take as long as the original archive"@,
            CheckMode::Sample { .. } => "reading and verifying a random sample of the repository"@,
        }
    }

    /// What this check does, for a person.
    pub fn description(self) -> (s: &'static str)
        ensures
            s@ == self.words(),
    {
        match self {
            CheckMode::Quick => "checking repository structure (not pack contents — use --full or --sample for that)",
            CheckMode::Full => "reading and verifying every byte in the repository — this can take as long as the original archive",
            CheckMode::Sample { .. } => "reading and verifying a random sample of the repository",
        }
    }
}

/// The summary that an object is: its `message_type` says so, and its number of
/// errors, zero where it gives none, is a number.
pub open spec fn summary_in(object: Option<Seq<(Seq<char>, JsonView)>>) -> Option<CheckSummary> {
    match object {
        None => None,
        Some(members) => if json_member(members, "message_type"@) == Some(
            JsonView::Text("summary"@),
        ) {
            match json_member(members, "num_errors"@) {
                None => Some(CheckSummary { num_errors: 0 }),
                Some(JsonView::Unsigned(n)) => Some(CheckSummary { num_errors: n }),
                Some(_) => None,
            }
        } else {
            None
        },
    }
}

/// The summary that a parsed line is, if it is one.
pub fn read_summary(object: &Option<Vec<(String, JsonValue)>>) -> (r: Option<CheckSummary>)
    ensures
        r == summary_in(
            match *object {
                Some(members) => Some(object_views(members@)),
                None => None,
            },
        ),
{
    let members = match object {
        None => return None,
        Some(members) => members,
    };
    match find_member(members, "message_type") {
        Some(JsonValue::Text(s)) => {
            if !same_text(s.as_str(), "summary") {
                return None;
            }
        },
        _ => return None,
    }
    match find_member(members, "num_errors") {
        None => Some(CheckSummary { num_errors: 0 }),
        Some(JsonValue::Unsigned(n)) => Some(CheckSummary { num_errors: *n }),
        Some(_) => None,
    }
}

/// Takes in a line of a running check: the last summary counts.
pub fn on_check_line(summary: &mut Option<CheckSummary>, line: &str)
    ensures
        *final(summary) == (match summary_in(json_object(line@)) {
            Some(s) => Some(s),
            None => *old(summary),
        }),
{
    let object = parse_object(line);
    match read_summary(&object) {
        Some(s) => {
            *summary = Some(s);
        },
        None => {},
    }
}

/// What came of a check.
pub fn check(ran: Result<(), ResticError>, summary: Option<CheckSummary>) -> (r: Result<
    CheckSummary,
    CradleError,
>)
    ensures
        match (ran, summary, r) {
            (Ok(()), Some(s), Ok(x)) => x == s,
            (Ok(()), None, Err(e)) => e@ == ErrorView::Other(
                "restic check finished without a summary message"@,
            ),
            (Err(e), _, Err(x)) => x@ == shown(e.code, e.message@),
            _ => false,
        },
{
    match ran {
        Err(e) => Err(e.into_error()),
        Ok(()) => match summary {
            Some(s) => Ok(s),
            None => Err(
                CradleError::Other("restic check finished without a summary message".to_owned()),
            ),
        },
    }
}

// --- what holds of archives ------------------------------------------------------------------

/// A name and its number as JSON writes them, `null` where there is no number.
pub open spec fn kept_as(name: Seq<char>, n: Option<u32>) -> Seq<char> {
    seq!['"'] + name + seq!['"', ':'] + match n {
        Some(k) => decimal(k as nat),
        None => seq!['n', 'u', 'l', 'l'],
    }
}

/// A policy is kept as an object with its four numbers, each under the name of its
/// own period.
pub proof fn law_policy_is_kept_by_name(p: RetentionPolicy)
    ensures
        p.json() == seq!['{'] + (kept_as("keep_daily"@, p.keep_daily) + seq![','] + kept_as(
            "keep_last"@,
            p.keep_last,
        ) + seq![','] + kept_as("keep_monthly"@, p.keep_monthly) + seq![','] + kept_as(
            "keep_weekly"@,
            p.keep_weekly,
        )) + seq!['}'],
{
    let d = ("keep_daily"@, p.keep_daily);
    let l = ("keep_last"@, p.keep_last);
    let m = ("keep_monthly"@, p.keep_monthly);
    let w = ("keep_weekly"@, p.keep_weekly);
    let one = seq![d];
    let two = seq![d, l];
    let three = seq![d, l, m];
    let four = seq![d, l, m, w];
    assert(four.drop_last() =~= three);
    assert(three.drop_last() =~= two);
    assert(two.drop_last() =~= one);
    assert(written_members(one) == kept_as("keep_daily"@, p.keep_daily));
    assert(written_members(two) == written_members(one) + seq![','] + kept_as(
        "keep_last"@,
        p.keep_last,
    ));
    assert(written_members(three) == written_members(two) + seq![','] + kept_as(
        "keep_monthly"@,
        p.keep_monthly,
    ));
    assert(written_members(four) == written_members(three) + seq![','] + kept_as(
        "keep_weekly"@,
        p.keep_weekly,
    ));
}

/// A policy is blank just when it keeps nothing by any period.
pub proof fn law_blank_policy(p: RetentionPolicy)
    ensures
        p.is_blank() <==> !(p.keep_last is Some || p.keep_daily is Some || p.keep_weekly is Some
            || p.keep_monthly is Some),
{
}

/// The last report counts: none behind it is one, and there is none only where no
/// line is.
pub proof fn law_last_report_counts(reports: Seq<Option<ExitReport>>)
    ensures
        forall|i: int|
            0 <= i < reports.len() && #[trigger] reports[i] is Some && (forall|j: int|
                i < j < reports.len() ==> #[trigger] reports[j] is None) ==> last_report(reports)
                == reports[i],
        (forall|i: int| 0 <= i < reports.len() ==> #[trigger] reports[i] is None) ==> last_report(
            reports,
        ) is None,
    decreases reports.len(),
{
    if reports.len() > 0 && reports.last() is None {
        let before = reports.drop_last();
        law_last_report_counts(before);
        assert forall|i: int|
            0 <= i < reports.len() && #[trigger] reports[i] is Some && (forall|j: int|
                i < j < reports.len() ==> #[trigger] reports[j] is None) implies last_report(
            reports,
        ) == reports[i] by {
            assert(before[i] is Some);
            assert forall|j: int| i < j < before.len() implies #[trigger] before[j] is None by {
                assert(reports[j] is None);
            }
        }
        if forall|i: int| 0 <= i < reports.len() ==> #[trigger] reports[i] is None {
            assert forall|i: int| 0 <= i < before.len() implies #[trigger] before[i] is None by {
                assert(reports[i] is None);
            }
        }
    } else if reports.len() > 0 {
        assert(reports[reports.len() - 1] is Some);
    }
}

/// A failure is told by restic's last report, with its code and words; without one,
/// by the exit status and what was printed, or that nothing was.
pub proof fn law_failure_is_told(
    stderr_text: Seq<char>,
    reports: Seq<Option<ExitReport>>,
    exit_code: Option<i32>,
    i: int,
)
    requires
        0 <= i < reports.len(),
    ensures
        reports[i] is Some && (forall|j: int|
            i < j < reports.len() ==> #[trigger] reports[j] is None) ==> failure_of(
            stderr_text,
            reports,
            exit_code,
        ) == (Some(reports[i]->0.code), reports[i]->0.message@),
        (forall|j: int| 0 <= j < reports.len() ==> #[trigger] reports[j] is None) ==> ({
            let (code, words) = failure_of(stderr_text, reports, exit_code);
            &&& code == (match exit_code {
                Some(c) => Some(c as i64),
                None => None,
            })
            &&& trim(stderr_text).len() > 0 ==> words == trim(stderr_text)
            &&& trim(stderr_text).len() == 0 && exit_code is Some ==> words
                == "restic exited with status "@ + ("Some("@ + signed_decimal(exit_code->0 as int)
                + ")"@) + " and no error output"@
        }),
{
    law_last_report_counts(reports);
}

/// What restic's codes for a missing, a locked and a closed repository are told as.
pub proof fn law_hints(message: Seq<char>, code: i64)
    ensures
        shown(Some(10), message) == ErrorView::Other(
            "restic error: "@ + message + " — "@
                + "the repository doesn't exist at this URI yet — check the destination's uri"@,
        ),
        shown(Some(11), message) == ErrorView::Other(
            "restic error: "@ + message + " — "@
                + "the repository is locked by another process — wait for it, or run `restic unlock` on this repo if a previous run crashed"@,
        ),
        shown(Some(12), message) == ErrorView::Other(
            "restic error: "@ + message + " — "@
                + "wrong repository password — the Keychain entry for this destination may have been changed or deleted outside Cradle"@,
        ),
        !(10 <= code <= 12) ==> shown(Some(code), message) == shown(None, message),
        shown(None, message) == ErrorView::Other("restic error: "@ + message),
{
}

/// What is printed is every line, each ended.
pub proof fn law_output_is_every_line(ls: Seq<Seq<char>>, more: Seq<char>)
    ensures
        output_of(seq![]) == Seq::<char>::empty(),
        output_of(ls.push(more)) == output_of(ls) + more + seq!['\n'],
{
    assert(ls.push(more).drop_last() =~= ls);
    assert((output_of(ls) + more).push('\n') =~= output_of(ls) + more + seq!['\n']);
}

/// The snapshot meant is the first that has the given name as its number or its
/// short number.
pub proof fn law_first_snapshot_called(snapshots: Seq<ResticSnapshot>, id: Seq<char>)
    ensures
        ({
            let at = place_called(snapshots, id) as int;
            &&& 0 <= at <= snapshots.len()
            &&& at < snapshots.len() ==> snapshots[at].id@ == id || snapshots[at].short_id@ == id
            &&& forall|i: int|
                0 <= i < at ==> (#[trigger] snapshots[i]).id@ != id && snapshots[i].short_id@ != id
        }),
    decreases snapshots.len(),
{
    if snapshots.len() > 0 && !is_called(snapshots[0], id) {
        let rest = snapshots.skip(1);
        law_first_snapshot_called(rest, id);
        assert forall|i: int| 0 <= i < place_called(snapshots, id) implies (
        #[trigger] snapshots[i]).id@ != id && snapshots[i].short_id@ != id by {
            if i > 0 {
                assert(rest[i - 1] == snapshots[i]);
            }
        }
    }
}

/// A path is made relative by taking off the slashes it starts with, all of them
/// and nothing else.
pub proof fn law_relative(s: Seq<char>) -> (n: int)
    ensures
        0 <= n <= s.len(),
        relative(s) == s.skip(n),
        forall|i: int| 0 <= i < n ==> #[trigger] s[i] == '/',
        n < s.len() ==> s[n] != '/',
    decreases s.len(),
{
    if s.len() > 0 && s[0] == '/' {
        let n = law_relative(s.skip(1));
        assert(s.skip(1).skip(n) =~= s.skip(n + 1));
        assert forall|i: int| 0 <= i < n + 1 implies #[trigger] s[i] == '/' by {
            if i > 0 {
                assert(s.skip(1)[i - 1] == s[i]);
            }
        }
        n + 1
    } else {
        assert(s.skip(0) =~= s);
        0
    }
}

/// Every group adds the snapshots it keeps to those kept, and those it removes to
/// those removed; a side that is not reported adds none.
pub proof fn law_every_group_is_reported(groups: Seq<ForgetGroup>, g: ForgetGroup)
    ensures
        all_reported(seq![], true).len() == 0,
        all_reported(seq![], false).len() == 0,
        all_reported(groups.push(g), true) == all_reported(groups, true) + (match g.keep {
            Some(v) => texts(v@),
            None => Seq::<Seq<char>>::empty(),
        }),
        all_reported(groups.push(g), false) == all_reported(groups, false) + (match g.remove {
            Some(v) => texts(v@),
            None => Seq::<Seq<char>>::empty(),
        }),
{
    assert(groups.push(g).drop_last() =~= groups);
}

/// A reported snapshot is shown by its short number and its time, each where it is
/// given as a text.
pub proof fn law_preview_entry(
    text: Seq<char>,
    members: Seq<(Seq<char>, JsonView)>,
    short_id: Seq<char>,
    time: Seq<char>,
)
    requires
        json_object(text) == Some(members),
        json_member(members, "short_id"@) == Some(JsonView::Text(short_id)),
        json_member(members, "time"@) == Some(JsonView::Text(time)),
    ensures
        entry_of(text) == (short_id, time),
        text_or_unknown(None, time) == "?"@,
        json_member(members, text) is None ==> text_or_unknown(Some(members), text) == "?"@,
{
}

/// A sample is at least a hundredth and at most all; what lies between is taken as
/// it is.
pub proof fn law_sample_is_a_percentage(percent: u8)
    ensures
        1 <= clamped(percent) <= 100,
        1 <= percent <= 100 ==> clamped(percent) == percent,
        percent < 1 ==> clamped(percent) == 1,
        percent > 100 ==> clamped(percent) == 100,
{
}

/// How thoroughly a check reads: nothing of the data, all of it, or the sample.
pub proof fn law_check_flags(percent: u8)
    ensures
        CheckMode::Quick.flags().len() == 0,
        CheckMode::Full.flags() == seq!["--read-data"@],
        1 <= percent <= 100 ==> (CheckMode::Sample { percent }).flags() == seq![
            "--read-data-subset="@ + decimal(percent as nat) + "%"@,
        ],
{
}

/// A line sums a check up only where it says that it does; how many errors there
/// were is the number it gives, and zero where it gives none.
pub proof fn law_check_summary(members: Seq<(Seq<char>, JsonView)>)
    ensures
        summary_in(None) is None,
        json_member(members, "message_type"@) != Some(JsonView::Text("summary"@)) ==> summary_in(
            Some(members),
        ) is None,
        json_member(members, "message_type"@) == Some(JsonView::Text("summary"@)) ==> {
            &&& json_member(members, "num_errors"@) is None ==> summary_in(Some(members)) == Some(
                CheckSummary { num_errors: 0 },
            )
            &&& json_member(members, "num_errors"@) matches Some(JsonView::Unsigned(n))
                ==> summary_in(Some(members)) == Some(CheckSummary { num_errors: n })
            &&& json_member(members, "num_errors"@) matches Some(JsonView::Text(_)) ==> summary_in(
                Some(members),
            ) is None
        },
{
}

/// What is said when restic could not be run tells at which step, and why.
pub proof fn law_start_words(e: CradleError, words: String)
    ensures
        start_words(StartFailure::Password(e))
            == "could not read repository password from Keychain: "@ + e@.text(),
        start_words(StartFailure::Missing(e)) == e@.text() + " (try `brew install restic`)"@,
        start_words(StartFailure::Spawn(words)) == "could not start restic: "@ + words@,
        start_words(StartFailure::Wait(words)) == "restic process error: "@ + words@,
{
}

/// A restic that was ended without a status, and left no word, is told so.
pub proof fn law_ended_without_status(reports: Seq<Option<ExitReport>>, blank: Seq<char>)
    requires
        trim(blank).len() == 0,
        reports.len() == 0,
    ensures
        failure_of(blank, reports, None) == (
            None::<i64>,
            "restic exited with status "@ + "None"@ + " and no error output"@,
        ),
{
}

} // verus!
