//! The verification a backup has to pass before it is relied on.
use vstd::prelude::*;

use crate::crypto::{decrypted, unlocked_manifest, Keybag};
use crate::error::{viewed, CradleError, ErrorView};
use crate::libimobiledevice::holds_text;
use crate::paths::{join, joined};
use crate::plists::{
    bytes_member, file_members, file_view, find_bytes, find_flag, find_text, flag_member,
    members_view, read_members, text_member, PlistValue, PlistView,
};
use crate::text::{chars_of, decimal, decimal_text, part, same_text, texts, texts_push};

verus! {

broadcast use texts_push;

/// How a backup fares when it is verified.
#[derive(Debug, Clone, Copy, PartialEq, Eq, Structural)]
pub enum Outcome {
    /// Everything was checked and everything is there.
    Verified,
    /// It is encrypted and there is no password to look inside with.
    NeedsPassword,
    /// Something is wrong with it.
    Invalid,
}

/// What verification found.
#[derive(Debug, Clone)]
pub struct Report {
    pub outcome: Outcome,
    pub status_finished: bool,
    /// Whether the manifest was opened, and its integrity checked.
    pub manifest_integrity_checked: bool,
    /// How many files the manifest lists, where it could be read.
    pub files_expected: Option<u64>,
    pub files_missing: u64,
    pub files_on_disk: u64,
    pub files_reported: u64,
    pub total_bytes: u64,
    pub problems: Vec<String>,
}

impl Report {
    /// Whether the backup is verified.
    pub fn passed(&self) -> (r: bool)
        ensures
            r == (self.outcome == Outcome::Verified),
    {
        self.outcome == Outcome::Verified
    }
}

/// What came of looking into the manifest.
#[derive(Debug)]
pub enum ManifestCheck {
    /// It is encrypted and there is no password.
    NeedsPassword,
    /// It could not be read, or is damaged; in words, and whether its
    /// integrity was checked at all.
    Failed { reason: String, checked: bool },
    /// It is intact and lists these files.
    Intact(Vec<String>),
}

// --- the property lists of a backup ------------------------------------------------------

/// Whether a status file says that the snapshot is finished.
pub open spec fn finished(status: Result<Seq<(Seq<char>, PlistView)>, Seq<char>>) -> bool {
    match status {
        Ok(members) => text_member(members, "SnapshotState"@) == Some("finished"@),
        Err(_) => false,
    }
}

/// Whether what was read of a status file says that the snapshot is finished.
pub fn says_finished(status: &Result<Vec<(String, PlistValue)>, String>) -> (r: bool)
    ensures
        r == finished(members_view(*status)),
{
    match status {
        Ok(members) => match find_text(members, "SnapshotState") {
            Some(s) => same_text(s.as_str(), "finished"),
            None => false,
        },
        Err(_) => false,
    }
}

/// Whether `Status.plist` says that the snapshot is finished.
pub fn status_finished(status: &Result<&[u8], String>) -> (r: bool)
    ensures
        r == finished(file_members(file_view(*status))),
{
    says_finished(&read_members(status))
}

/// Whether a manifest belongs to an encrypted backup: yes, unless it says no.
pub open spec fn encrypted(manifest: Result<Seq<(Seq<char>, PlistView)>, Seq<char>>) -> bool {
    match manifest {
        Ok(members) => match flag_member(members, "IsEncrypted"@) {
            Some(b) => b,
            None => true,
        },
        Err(_) => true,
    }
}

/// Whether what was read of a manifest belongs to an encrypted backup.
pub fn says_encrypted(manifest: &Result<Vec<(String, PlistValue)>, String>) -> (r: bool)
    ensures
        r == encrypted(members_view(*manifest)),
{
    match manifest {
        Ok(members) => match find_flag(members, "IsEncrypted") {
            Some(b) => b,
            None => true,
        },
        Err(_) => true,
    }
}

/// Whether `Manifest.plist` belongs to an encrypted backup.
pub fn backup_is_encrypted(manifest: &Result<&[u8], String>) -> (r: bool)
    ensures
        r == encrypted(file_members(file_view(*manifest))),
{
    says_encrypted(&read_members(manifest))
}

// --- the manifest -------------------------------------------------------------------------

/// How the manifest is to be read.
#[derive(Debug, Clone, Copy, PartialEq, Eq, Structural)]
pub enum ManifestPlan {
    /// As it lies there.
    Plain,
    /// After decrypting it.
    Decrypt,
    /// Not at all: there is no password.
    NeedsPassword,
}

/// How the manifest is to be read.
pub fn manifest_plan(encrypted: bool, has_password: bool) -> (p: ManifestPlan)
    ensures
        p == (if !encrypted {
            ManifestPlan::Plain
        } else if has_password {
            ManifestPlan::Decrypt
        } else {
            ManifestPlan::NeedsPassword
        }),
{
    if !encrypted {
        ManifestPlan::Plain
    } else if has_password {
        ManifestPlan::Decrypt
    } else {
        ManifestPlan::NeedsPassword
    }
}

/// What came of opening and reading the manifest's database.
#[derive(Debug)]
pub enum ManifestReading {
    /// The plain database is not there.
    Absent,
    /// The plain database could not be opened; in words.
    NotOpened(String),
    /// The database could not be decrypted.
    NotDecrypted(CradleError),
    /// The decrypted database could not be opened; in words.
    DecryptedNotOpened(String),
    /// The database was opened: what its integrity check said or why that
    /// failed, and the files it lists or why those could not be read.
    Opened { integrity: Result<String, String>, files: Result<Vec<String>, String> },
}

/// A [`ManifestCheck`] with its texts as sequences of characters.
pub enum CheckView {
    NeedsPassword,
    Failed { reason: Seq<char>, checked: bool },
    Intact(Seq<Seq<char>>),
}

impl View for ManifestCheck {
    type V = CheckView;

    open spec fn view(&self) -> CheckView {
        match self {
            ManifestCheck::NeedsPassword => CheckView::NeedsPassword,
            ManifestCheck::Failed { reason, checked } => CheckView::Failed {
                reason: reason@,
                checked: *checked,
            },
            ManifestCheck::Intact(ids) => CheckView::Intact(texts(ids@)),
        }
    }
}

/// A manifest whose integrity was never checked.
pub open spec fn unchecked(reason: Seq<char>) -> CheckView {
    CheckView::Failed { reason, checked: false }
}

/// What a reading of the manifest comes to: its integrity was checked only where
/// the database was opened and the check came to an answer.
pub open spec fn reading_verdict(reading: ManifestReading) -> CheckView {
    match reading {
        ManifestReading::Absent => unchecked(
            "Manifest.db is missing — the backup did not arrive intact."@,
        ),
        ManifestReading::NotOpened(words) => unchecked("catalog error: "@ + words@),
        ManifestReading::NotDecrypted(e) => unchecked(e@.text()),
        ManifestReading::DecryptedNotOpened(words) => unchecked(
            "could not open decrypted Manifest.db: "@ + words@,
        ),
        ManifestReading::Opened { integrity, files } => match integrity {
            Err(words) => unchecked("could not run integrity check on Manifest.db: "@ + words@),
            Ok(result) => if result@ != "ok"@ {
                CheckView::Failed {
                    reason: "Manifest.db failed integrity check: "@ + result@,
                    checked: true,
                }
            } else {
                match files {
                    Ok(ids) => CheckView::Intact(texts(ids@)),
                    Err(words) => CheckView::Failed {
                        reason: "could not read Manifest.db's Files table: "@ + words@,
                        checked: true,
                    },
                }
            },
        },
    }
}

/// A manifest whose integrity was never checked.
fn not_checked(reason: String) -> (c: ManifestCheck)
    ensures
        c@ == unchecked(reason@),
{
    ManifestCheck::Failed { reason, checked: false }
}

/// What came of looking into the manifest, for a plan and what following it gave.
pub fn check_manifest(plan: ManifestPlan, reading: ManifestReading) -> (c: ManifestCheck)
    ensures
        c@ == (if plan == ManifestPlan::NeedsPassword {
            CheckView::NeedsPassword
        } else {
            reading_verdict(reading)
        }),
{
    if plan == ManifestPlan::NeedsPassword {
        return ManifestCheck::NeedsPassword;
    }
    match reading {
        ManifestReading::Absent => not_checked(
            "Manifest.db is missing — the backup did not arrive intact.".to_owned(),
        ),
        ManifestReading::NotOpened(words) => not_checked(CradleError::Catalog(words).message()),
        ManifestReading::NotDecrypted(e) => not_checked(e.message()),
        ManifestReading::DecryptedNotOpened(words) => not_checked(
            "could not open decrypted Manifest.db: ".to_owned().concat(words.as_str()),
        ),
        ManifestReading::Opened { integrity, files } => match integrity {
            Err(words) => not_checked(
                "could not run integrity check on Manifest.db: ".to_owned().concat(words.as_str()),
            ),
            Ok(result) => if !same_text(result.as_str(), "ok") {
                ManifestCheck::Failed {
                    reason: "Manifest.db failed integrity check: ".to_owned().concat(
                        result.as_str(),
                    ),
                    checked: true,
                }
            } else {
                match files {
                    Ok(ids) => ManifestCheck::Intact(ids),
                    Err(words) => ManifestCheck::Failed {
                        reason: "could not read Manifest.db's Files table: ".to_owned().concat(
                            words.as_str(),
                        ),
                        checked: true,
                    },
                }
            },
        },
    }
}

/// What decrypting the manifest's database gives: the key for it is in the
/// manifest, and the keybag there unwraps it.
pub open spec fn decrypted_manifest(
    manifest: Result<Seq<(Seq<char>, PlistView)>, Seq<char>>,
    password: Seq<u8>,
    db: Result<Seq<u8>, Seq<char>>,
) -> Result<Seq<u8>, ErrorView> {
    match manifest {
        Err(words) => Err(ErrorView::Other("could not read Manifest.plist: "@ + words)),
        Ok(members) => match bytes_member(members, "ManifestKey"@) {
            None => Err(ErrorView::Other("Manifest.plist has no ManifestKey"@)),
            Some(key) => match unlocked_manifest(manifest, password) {
                Err(e) => Err(e),
                Ok(keys) => match db {
                    Err(words) => Err(ErrorView::Io(words)),
                    Ok(data) => decrypted(keys, data, key),
                },
            },
        },
    }
}

/// The bytes of a file that was read, or the words for why not.
pub open spec fn owned_view(file: Result<Vec<u8>, String>) -> Result<Seq<u8>, Seq<char>> {
    match file {
        Ok(bytes) => Ok(bytes@),
        Err(words) => Err(words@),
    }
}

/// Decrypts the bytes of the manifest with what was read of `Manifest.plist`.
pub fn decrypt_manifest_with(
    manifest: &Result<Vec<(String, PlistValue)>, String>,
    password: &str,
    db: Result<Vec<u8>, String>,
) -> (r: Result<Vec<u8>, CradleError>)
    ensures
        viewed(r) == decrypted_manifest(
            members_view(*manifest),
            vstd::utf8::encode_utf8(password@),
            owned_view(db),
        ),
{
    let members = match manifest {
        Ok(members) => members,
        Err(words) => return Err(
            CradleError::Other("could not read Manifest.plist: ".to_owned().concat(words.as_str())),
        ),
    };
    let key = match find_bytes(members, "ManifestKey") {
        Some(key) => key,
        None => return Err(CradleError::Other("Manifest.plist has no ManifestKey".to_owned())),
    };
    let keybag = match Keybag::unlock_from_manifest(manifest, password) {
        Ok(keybag) => keybag,
        Err(e) => return Err(e),
    };
    let mut data = match db {
        Ok(data) => data,
        Err(words) => return Err(CradleError::Io(words)),
    };
    match keybag.decrypt(data.as_mut_slice(), key) {
        Ok(()) => Ok(data),
        Err(e) => Err(e),
    }
}

/// Decrypts the manifest's database.
pub fn decrypt_manifest(
    manifest: &Result<&[u8], String>,
    password: &str,
    db: Result<Vec<u8>, String>,
) -> (r: Result<Vec<u8>, CradleError>)
    ensures
        viewed(r) == decrypted_manifest(
            file_members(file_view(*manifest)),
            vstd::utf8::encode_utf8(password@),
            owned_view(db),
        ),
{
    decrypt_manifest_with(&read_members(manifest), password, db)
}

// --- payload files -----------------------------------------------------------------------

/// How many bytes a character takes in UTF-8.
pub open spec fn utf8_width(c: char) -> nat {
    let v = c as u32;
    if v < 0x80 {
        1
    } else if v < 0x800 {
        2
    } else if v < 0x1_0000 {
        3
    } else {
        4
    }
}

/// The first two bytes of an identifier, where they are whole characters.
pub open spec fn prefix_of(id: Seq<char>) -> Option<Seq<char>> {
    if id.len() >= 2 && utf8_width(id[0]) == 1 && utf8_width(id[1]) == 1 {
        Some(id.take(2))
    } else if id.len() >= 1 && utf8_width(id[0]) == 2 {
        Some(id.take(1))
    } else {
        None
    }
}

/// Where the file that an identifier names lies in a backup. An identifier
/// that is too short names none.
pub open spec fn payload_place(dir: Seq<char>, id: Seq<char>) -> Option<Seq<char>> {
    match prefix_of(id) {
        Some(prefix) => Some(joined(joined(dir, prefix), id)),
        None => None,
    }
}

/// Where the file that an identifier names lies in a backup.
pub fn payload_path(dir: &str, id: &str) -> (r: Option<String>)
    ensures
        match r {
            Some(p) => payload_place(dir@, id@) == Some(p@),
            None => payload_place(dir@, id@) is None,
        },
{
    let v = chars_of(id);
    let n: usize = if v.len() >= 2 && (v[0] as u32) < 0x80 && (v[1] as u32) < 0x80 {
        2
    } else if v.len() >= 1 && (v[0] as u32) >= 0x80 && (v[0] as u32) < 0x800 {
        1
    } else {
        return None;
    };
    let prefix = part(&v, 0, n);
    assert(prefix@ =~= v@.take(n as int));
    Some(join(join(dir, prefix.as_str()).as_str(), id))
}

/// How many of the files that `ids` name are missing. `present` answers for
/// each whether there is a file where it would lie; an identifier that names
/// none is missing in any case.
pub open spec fn missing_count(ids: Seq<Seq<char>>, present: Seq<bool>) -> nat
    decreases ids.len(),
{
    if ids.len() == 0 {
        0
    } else {
        missing_count(ids.drop_last(), present) + if prefix_of(ids.last()) is None
            || !present[ids.len() - 1] {
            1nat
        } else {
            0nat
        }
    }
}

/// No more files are missing than are named.
pub proof fn missing_count_bounded(ids: Seq<Seq<char>>, present: Seq<bool>)
    ensures
        missing_count(ids, present) <= ids.len(),
    decreases ids.len(),
{
    if ids.len() > 0 {
        missing_count_bounded(ids.drop_last(), present);
    }
}

/// Nothing is missing just when every identifier names a file that is there.
pub proof fn law_nothing_missing(ids: Seq<Seq<char>>, present: Seq<bool>)
    requires
        ids.len() == present.len(),
    ensures
        missing_count(ids, present) == 0 <==> forall|i: int|
            0 <= i < ids.len() ==> prefix_of(#[trigger] ids[i]) is Some && present[i],
{
    nothing_missing_upto(ids, present, ids.len() as int);
    assert(ids.take(ids.len() as int) =~= ids);
}

/// Nothing is missing among the first `n` just when each of them is there.
proof fn nothing_missing_upto(ids: Seq<Seq<char>>, present: Seq<bool>, n: int)
    requires
        0 <= n <= ids.len() == present.len(),
    ensures
        missing_count(ids.take(n), present) == 0 <==> forall|i: int|
            0 <= i < n ==> prefix_of(#[trigger] ids[i]) is Some && present[i],
    decreases n,
{
    if n > 0 {
        nothing_missing_upto(ids, present, n - 1);
        let now = ids.take(n);
        assert(now.drop_last() =~= ids.take(n - 1));
        assert(now.last() == ids[n - 1]);
        if missing_count(now, present) == 0 {
            assert forall|i: int| 0 <= i < n implies prefix_of(#[trigger] ids[i]) is Some
                && present[i] by {}
        }
    }
}

/// How many of the files that `ids` name are missing.
pub fn missing_payload_files(ids: &Vec<String>, present: &Vec<bool>) -> (n: u64)
    requires
        ids@.len() == present@.len(),
    ensures
        n == missing_count(texts(ids@), present@),
        n <= ids@.len(),
{
    let mut n: u64 = 0;
    let mut i: usize = 0;
    while i < ids.len()
        invariant
            i <= ids@.len() == present@.len(),
            n <= i,
            n == missing_count(texts(ids@).take(i as int), present@),
        decreases ids@.len() - i,
    {
        proof {
            let now = texts(ids@).take(i + 1);
            assert(now.drop_last() =~= texts(ids@).take(i as int));
            assert(now.last() == ids@[i as int]@);
        }
        if payload_path("", ids[i].as_str()).is_none() || !present[i] {
            n = n + 1;
        }
        i = i + 1;
    }
    assert(texts(ids@).take(i as int) =~= texts(ids@));
    n
}

/// Whether an entry of a backup's directory holds payload files: a directory
/// whose name has two bytes.
pub fn holds_payload(is_dir: bool, name_len: usize) -> (r: bool)
    ensures
        r == (is_dir && name_len == 2),
{
    is_dir && name_len == 2
}

/// What lies at the top of a backup: for a directory, the names of the regular
/// files in it, as far as they are text.
#[derive(Debug)]
pub struct TopEntry {
    pub is_dir: bool,
    /// How many bytes its name has.
    pub name_len: usize,
    pub files: Vec<Option<String>>,
}

/// Whether `id` is the name of a file in one of the payload directories.
pub open spec fn on_disk(entries: Seq<TopEntry>, id: Seq<char>) -> bool {
    exists|i: int, j: int|
        0 <= i < entries.len() && entries[i].is_dir && entries[i].name_len == 2 && 0 <= j
            < entries[i].files@.len() && names(#[trigger] entries[i].files@[j], id)
}

/// Whether this is the name `id`.
pub open spec fn names(name: Option<String>, id: Seq<char>) -> bool {
    name matches Some(s) && s@ == id
}

/// The files that lie in the payload directories of a backup, each once.
pub fn on_disk_file_ids(entries: &Vec<TopEntry>) -> (ids: Vec<String>)
    ensures
        forall|id: Seq<char>| #[trigger] texts(ids@).contains(id) <==> on_disk(entries@, id),
        texts(ids@).no_duplicates(),
{
    let mut ids: Vec<String> = Vec::new();
    let mut i: usize = 0;
    assert(texts(ids@) =~= seq![]);
    while i < entries.len()
        invariant
            i <= entries@.len(),
            forall|id: Seq<char>| #[trigger]
                texts(ids@).contains(id) <==> on_disk(entries@.take(i as int), id),
            texts(ids@).no_duplicates(),
        decreases entries@.len() - i,
    {
        if holds_payload(entries[i].is_dir, entries[i].name_len) {
            add_names(&entries[i].files, &mut ids);
        }
        proof {
            let before = entries@.take(i as int);
            let now = entries@.take(i + 1);
            let e = entries@[i as int];
            assert forall|id: Seq<char>| on_disk(now, id) <==> on_disk(before, id) || (e.is_dir
                && e.name_len == 2 && exists|j: int|
                0 <= j < e.files@.len() && names(#[trigger] e.files@[j], id)) by {
                if on_disk(now, id) {
                    let (a, b) = choose|a: int, b: int|
                        0 <= a < now.len() && now[a].is_dir && now[a].name_len == 2 && 0 <= b
                            < now[a].files@.len() && names(#[trigger] now[a].files@[b], id);
                    if a < i {
                        assert(before[a] == now[a]);
                        assert(names(before[a].files@[b], id));
                    } else {
                        assert(names(e.files@[b], id));
                    }
                }
                if on_disk(before, id) {
                    let (a, b) = choose|a: int, b: int|
                        0 <= a < before.len() && before[a].is_dir && before[a].name_len == 2
                            && 0 <= b < before[a].files@.len() && names(
                            #[trigger] before[a].files@[b],
                            id,
                        );
                    assert(now[a] == before[a]);
                    assert(names(now[a].files@[b], id));
                }
                if e.is_dir && e.name_len == 2 && exists|j: int|
                    0 <= j < e.files@.len() && names(#[trigger] e.files@[j], id) {
                    let b = choose|j: int|
                        0 <= j < e.files@.len() && names(#[trigger] e.files@[j], id);
                    assert(now[i as int] == e);
                    assert(names(now[i as int].files@[b], id));
                }
            }
        }
        i = i + 1;
    }
    assert(entries@.take(i as int) =~= entries@);
    ids
}

/// Adds the names that are not there yet.
fn add_names(files: &Vec<Option<String>>, ids: &mut Vec<String>)
    requires
        texts(old(ids)@).no_duplicates(),
    ensures
        texts(final(ids)@).no_duplicates(),
        forall|id: Seq<char>| #[trigger]
            texts(final(ids)@).contains(id) <==> texts(old(ids)@).contains(id) || exists|j: int|
                0 <= j < files@.len() && names(#[trigger] files@[j], id),
{
    let ghost start = texts(ids@);
    let mut j: usize = 0;
    while j < files.len()
        invariant
            j <= files@.len(),
            texts(ids@).no_duplicates(),
            forall|id: Seq<char>| #[trigger]
                texts(ids@).contains(id) <==> start.contains(id) || exists|k: int|
                    0 <= k < j && names(#[trigger] files@[k], id),
        decreases files@.len() - j,
    {
        let ghost was = texts(ids@);
        if let Some(name) = &files[j] {
            if !holds_text(ids, name.as_str()) {
                ids.push(name.clone());
                assert(texts(ids@) == was.push(name@));
                assert forall|id: Seq<char>| texts(ids@).contains(id) <==> was.contains(id) || id
                    == name@ by {
                    if was.contains(id) {
                        let k = choose|k: int| 0 <= k < was.len() && was[k] == id;
                        assert(texts(ids@)[k] == id);
                    }
                    if id == name@ {
                        assert(texts(ids@)[was.len() as int] == id);
                    }
                }
            }
        }
        assert forall|id: Seq<char>| #[trigger]
            texts(ids@).contains(id) <==> start.contains(id) || exists|k: int|
                0 <= k < j + 1 && names(#[trigger] files@[k], id) by {
            assert(texts(ids@).contains(id) <==> was.contains(id) || names(files@[j as int], id));
            if was.contains(id) && !start.contains(id) {
                let k = choose|k: int| 0 <= k < j && names(#[trigger] files@[k], id);
                assert(names(files@[k], id));
            }
        }
        j = j + 1;
    }
}

/// The total of several sizes.
pub open spec fn sum(sizes: Seq<u64>) -> nat
    decreases sizes.len(),
{
    if sizes.len() == 0 {
        0
    } else {
        sum(sizes.drop_last()) + sizes.last() as nat
    }
}

/// The total of some of the sizes is at most that of all.
pub proof fn sum_grows(sizes: Seq<u64>, n: int)
    requires
        0 <= n <= sizes.len(),
    ensures
        sum(sizes.take(n)) <= sum(sizes),
    decreases sizes.len(),
{
    if n < sizes.len() {
        sum_grows(sizes.drop_last(), n);
        assert(sizes.drop_last().take(n) =~= sizes.take(n));
    } else {
        assert(sizes.take(n) =~= sizes);
    }
}

/// How many files a backup has on disk, and their bytes, from the sizes of its
/// files.
pub fn scan_backup_dir(sizes: &Vec<u64>) -> (r: (u64, u64))
    requires
        sum(sizes@) <= u64::MAX,
    ensures
        r.0 == sizes@.len(),
        r.1 == sum(sizes@),
{
    let mut bytes: u64 = 0;
    let mut i: usize = 0;
    while i < sizes.len()
        invariant
            i <= sizes@.len(),
            sum(sizes@) <= u64::MAX,
            bytes == sum(sizes@.take(i as int)),
        decreases sizes@.len() - i,
    {
        proof {
            sum_grows(sizes@, i + 1);
            assert(sizes@.take(i + 1).drop_last() =~= sizes@.take(i as int));
        }
        bytes = bytes + sizes[i];
        i = i + 1;
    }
    assert(sizes@.take(i as int) =~= sizes@);
    (sizes.len() as u64, bytes)
}

// --- the verdict ---------------------------------------------------------------------------

/// What is said of a snapshot that is not finished.
pub const NOT_FINISHED: &'static str = "Status.plist does not report a finished snapshot — the device may have cancelled or the transfer was interrupted.";

/// What is said of missing files.
pub open spec fn missing_problem(missing: nat, listed: nat) -> Seq<char> {
    decimal(missing) + " of "@ + decimal(listed)
        + " file(s) listed in Manifest.db are missing on disk."@
}

/// The problem that the manifest shows, if any.
pub open spec fn manifest_problem(check: CheckView, present: Seq<bool>) -> Seq<Seq<char>> {
    match check {
        CheckView::NeedsPassword => seq![],
        CheckView::Failed { reason, .. } => seq![reason],
        CheckView::Intact(ids) => if missing_count(ids, present) > 0 {
            seq![missing_problem(missing_count(ids, present), ids.len())]
        } else {
            seq![]
        },
    }
}

/// How a backup fares.
pub open spec fn verdict(status_finished: bool, check: CheckView, present: Seq<bool>) -> Outcome {
    if !status_finished {
        Outcome::Invalid
    } else {
        match check {
            CheckView::NeedsPassword => Outcome::NeedsPassword,
            CheckView::Failed { .. } => Outcome::Invalid,
            CheckView::Intact(ids) => if missing_count(ids, present) > 0 {
                Outcome::Invalid
            } else {
                Outcome::Verified
            },
        }
    }
}

/// Whether the manifest's integrity was checked.
pub open spec fn integrity_checked(check: CheckView) -> bool {
    match check {
        CheckView::NeedsPassword => false,
        CheckView::Failed { checked, .. } => checked,
        CheckView::Intact(_) => true,
    }
}

/// Whether `r` is the report on a backup.
pub open spec fn reports(
    r: Report,
    status_finished: bool,
    on_disk: (u64, u64),
    check: CheckView,
    present: Seq<bool>,
    files_reported: u64,
) -> bool {
    &&& r.outcome == verdict(status_finished, check, present)
    &&& r.status_finished == status_finished
    &&& r.manifest_integrity_checked == integrity_checked(check)
    &&& r.files_expected == (match check {
        CheckView::Intact(ids) => Some(ids.len() as u64),
        _ => None,
    })
    &&& r.files_missing == (match check {
        CheckView::Intact(ids) => missing_count(ids, present) as u64,
        _ => 0,
    })
    &&& r.files_on_disk == on_disk.0
    &&& r.total_bytes == on_disk.1
    &&& r.files_reported == files_reported
    &&& texts(r.problems@) == (if status_finished {
        seq![]
    } else {
        seq![NOT_FINISHED@]
    }) + manifest_problem(check, present)
}

/// Judges a backup from what was found of it: its status, the number and bytes
/// of its files, what came of looking into its manifest, and whether each file
/// listed there is present.
pub fn run_blocking(
    status_finished: bool,
    on_disk: (u64, u64),
    check: &ManifestCheck,
    present: &Vec<bool>,
    files_reported: u64,
) -> (r: Report)
    requires
        check matches ManifestCheck::Intact(ids) ==> ids@.len() == present@.len(),
    ensures
        reports(r, status_finished, on_disk, check@, present@, files_reported),
{
    let mut problems: Vec<String> = Vec::new();
    if !status_finished {
        problems.push(NOT_FINISHED.to_owned());
    }
    let ghost first = texts(problems@);
    assert(first =~= if status_finished {
        seq![]
    } else {
        seq![NOT_FINISHED@]
    });
    let mut files_expected: Option<u64> = None;
    let mut files_missing: u64 = 0;
    let mut checked: bool = true;
    let outcome = match check {
        ManifestCheck::NeedsPassword => {
            checked = false;
            Outcome::NeedsPassword
        },
        ManifestCheck::Failed { reason, checked: came_to_it } => {
            checked = *came_to_it;
            problems.push(reason.clone());
            Outcome::Invalid
        },
        ManifestCheck::Intact(ids) => {
            assert(texts(ids@).len() == ids@.len());
            files_missing = missing_payload_files(ids, present);
            files_expected = Some(ids.len() as u64);
            if files_missing > 0 {
                problems.push(
                    decimal_text(files_missing).concat(" of ").concat(
                        decimal_text(ids.len() as u64).as_str(),
                    ).concat(" file(s) listed in Manifest.db are missing on disk."),
                );
                Outcome::Invalid
            } else {
                Outcome::Verified
            }
        },
    };
    assert(texts(problems@) =~= first + manifest_problem(check@, present@));
    Report {
        outcome: if status_finished {
            outcome
        } else {
            Outcome::Invalid
        },
        status_finished,
        manifest_integrity_checked: checked,
        files_expected,
        files_missing,
        files_on_disk: on_disk.0,
        files_reported,
        total_bytes: on_disk.1,
        problems,
    }
}

/// A backup is verified just where its snapshot is finished, its manifest was
/// looked into and is intact, and every file it lists is there.
pub proof fn law_verified_means_checked(
    status_finished: bool,
    check: CheckView,
    present: Seq<bool>,
)
    requires
        check matches CheckView::Intact(ids) ==> ids.len() == present.len(),
    ensures
        verdict(status_finished, check, present) == Outcome::Verified <==> (status_finished
            && match check {
            CheckView::Intact(ids) => forall|i: int|
                0 <= i < ids.len() ==> prefix_of(#[trigger] ids[i]) is Some && present[i],
            _ => false,
        }),
{
    if let CheckView::Intact(ids) = check {
        law_nothing_missing(ids, present);
    }
}

/// A manifest that could not be opened, or not be decrypted, does not count as
/// checked: only one that was opened, and whose check came to an answer, does.
pub proof fn law_unopened_is_unchecked(reading: ManifestReading)
    ensures
        integrity_checked(reading_verdict(reading)) <==> (reading matches ManifestReading::Opened {
            integrity,
            ..
        } && integrity is Ok),
{
}

/// An encrypted backup without a password is never verified.
pub proof fn law_no_password_no_verification(status_finished: bool, present: Seq<bool>)
    ensures
        verdict(status_finished, CheckView::NeedsPassword, present) != Outcome::Verified,
{
}

/// A report names a problem just when the backup is invalid.
pub proof fn law_invalid_names_a_problem(
    r: Report,
    status_finished: bool,
    on_disk: (u64, u64),
    check: CheckView,
    present: Seq<bool>,
    files_reported: u64,
)
    requires
        reports(r, status_finished, on_disk, check, present, files_reported),
    ensures
        r.outcome == Outcome::Invalid <==> r.problems@.len() > 0,
{
    assert(texts(r.problems@).len() == r.problems@.len());
}

/// As many files are missing as there are identifiers that name none, or whose file
/// is not there.
pub proof fn law_missing_are_counted(ids: Seq<Seq<char>>, present: Seq<bool>)
    requires
        ids.len() == present.len(),
    ensures
        missing_count(ids, present) == Seq::new(ids.len(), |i: int| i).filter(
            |i: int| prefix_of(ids[i]) is None || !present[i],
        ).len(),
{
    missing_upto(ids, present, ids.len());
    assert(ids.take(ids.len() as int) =~= ids);
}

/// Among the first `n`, as many are missing as name none or are not there.
proof fn missing_upto(ids: Seq<Seq<char>>, present: Seq<bool>, n: nat)
    requires
        n <= ids.len() == present.len(),
    ensures
        missing_count(ids.take(n as int), present) == Seq::new(n, |i: int| i).filter(
            |i: int| prefix_of(ids[i]) is None || !present[i],
        ).len(),
    decreases n,
{
    reveal(Seq::filter);
    let places = Seq::new(n, |i: int| i);
    if n > 0 {
        missing_upto(ids, present, (n - 1) as nat);
        assert(ids.take(n as int).drop_last() =~= ids.take(n - 1));
        assert(places.drop_last() =~= Seq::new((n - 1) as nat, |i: int| i));
    }
}

/// A file lies below the directory called after the first two bytes of its identifier.
/// Two characters of one byte are two bytes, one below U+0800 is two, and any other has
/// no boundary there.
pub proof fn law_payload_place(dir: Seq<char>, id: Seq<char>)
    ensures
        id.len() >= 2 && (id[0] as u32) < 0x80 && (id[1] as u32) < 0x80 ==> payload_place(dir, id)
            == Some(joined(joined(dir, seq![id[0], id[1]]), id)),
        id.len() >= 1 && 0x80 <= (id[0] as u32) < 0x800 ==> payload_place(dir, id) == Some(
            joined(joined(dir, seq![id[0]]), id),
        ),
        id.len() == 0 ==> payload_place(dir, id) is None,
        id.len() >= 1 && (id[0] as u32) >= 0x800 ==> payload_place(dir, id) is None,
        id.len() == 1 && (id[0] as u32) < 0x80 ==> payload_place(dir, id) is None,
        id.len() >= 2 && (id[0] as u32) < 0x80 && (id[1] as u32) >= 0x80 ==> payload_place(
            dir,
            id,
        ) is None,
{
    if id.len() >= 2 {
        assert(id.take(2) =~= seq![id[0], id[1]]);
    }
    if id.len() >= 1 {
        assert(id.take(1) =~= seq![id[0]]);
    }
}

/// Every size counts into the total, once.
pub proof fn law_sum(a: Seq<u64>, b: Seq<u64>, n: u64)
    ensures
        sum(seq![]) == 0,
        sum(a.push(n)) == sum(a) + n,
        sum(a + b) == sum(a) + sum(b),
    decreases b.len(),
{
    assert(a.push(n).drop_last() =~= a);
    if b.len() == 0 {
        assert(a + b =~= a);
    } else {
        law_sum(a, b.drop_last(), n);
        assert((a + b).drop_last() =~= a + b.drop_last());
    }
}

/// A snapshot is finished only where its status says so in as many words; a backup is
/// plain only where its manifest says so.
pub proof fn law_status_and_encryption(
    members: Seq<(Seq<char>, PlistView)>,
    words: Seq<char>,
)
    ensures
        finished(Ok(members)) <==> text_member(members, "SnapshotState"@) == Some("finished"@),
        !finished(Err(words)),
        !encrypted(Ok(members)) <==> flag_member(members, "IsEncrypted"@) == Some(false),
        encrypted(Err(words)),
{
}

/// Of a database that was opened, its check has the first word: only one that says `ok`
/// lets the files count.
pub proof fn law_integrity_comes_first(
    said: String,
    failed: String,
    ids: Vec<String>,
    files: Result<Vec<String>, String>,
)
    ensures
        reading_verdict(ManifestReading::Opened { integrity: Err(failed), files }) == (
        CheckView::Failed {
            reason: "could not run integrity check on Manifest.db: "@ + failed@,
            checked: false,
        }),
        said@ != "ok"@ ==> reading_verdict(ManifestReading::Opened { integrity: Ok(said), files })
            == (CheckView::Failed {
            reason: "Manifest.db failed integrity check: "@ + said@,
            checked: true,
        }),
        said@ == "ok"@ ==> reading_verdict(
            ManifestReading::Opened { integrity: Ok(said), files: Ok(ids) },
        ) == CheckView::Intact(texts(ids@)),
        said@ == "ok"@ ==> reading_verdict(
            ManifestReading::Opened { integrity: Ok(said), files: Err(failed) },
        ) == (CheckView::Failed {
            reason: "could not read Manifest.db's Files table: "@ + failed@,
            checked: true,
        }),
{
}

/// A manifest that was not opened fails, with why, and unchecked.
pub proof fn law_not_opened(words: String, e: CradleError)
    ensures
        reading_verdict(ManifestReading::Absent) == (CheckView::Failed {
            reason: "Manifest.db is missing — the backup did not arrive intact."@,
            checked: false,
        }),
        reading_verdict(ManifestReading::NotOpened(words)) == (CheckView::Failed {
            reason: "catalog error: "@ + words@,
            checked: false,
        }),
        reading_verdict(ManifestReading::NotDecrypted(e)) == (CheckView::Failed {
            reason: e@.text(),
            checked: false,
        }),
        reading_verdict(ManifestReading::DecryptedNotOpened(words)) == (CheckView::Failed {
            reason: "could not open decrypted Manifest.db: "@ + words@,
            checked: false,
        }),
{
}

/// The manifest is decrypted with its own key and the classes that the password
/// unlocks; without any of them it is not.
pub proof fn law_manifest_is_decrypted(
    members: Seq<(Seq<char>, PlistView)>,
    password: Seq<u8>,
    data: Seq<u8>,
    words: Seq<char>,
)
    ensures
        decrypted_manifest(Err(words), password, Ok(data)) == Err::<Seq<u8>, _>(
            ErrorView::Other("could not read Manifest.plist: "@ + words),
        ),
        match (
            bytes_member(members, "ManifestKey"@),
            unlocked_manifest(Ok(members), password),
        ) {
            (None, _) => decrypted_manifest(Ok(members), password, Ok(data)) == Err::<Seq<u8>, _>(
                ErrorView::Other("Manifest.plist has no ManifestKey"@),
            ),
            (Some(key), Err(e)) => decrypted_manifest(Ok(members), password, Ok(data)) == Err::<
                Seq<u8>,
                _,
            >(e),
            (Some(key), Ok(keys)) => decrypted_manifest(Ok(members), password, Ok(data))
                == decrypted(keys, data, key) && decrypted_manifest(
                Ok(members),
                password,
                Err(words),
            ) == Err::<Seq<u8>, _>(ErrorView::Io(words)),
        },
{
}

/// Only a finished snapshot can want for nothing but its password, and it does so just
/// where there is none to look inside with.
pub proof fn law_needs_password(status_finished: bool, check: CheckView, present: Seq<bool>)
    ensures
        verdict(status_finished, check, present) == Outcome::NeedsPassword <==> status_finished
            && check is NeedsPassword,
        !status_finished ==> verdict(status_finished, check, present) == Outcome::Invalid,
        check is Failed ==> verdict(status_finished, check, present) == Outcome::Invalid,
{
}

/// A report tells what was found: of a manifest that could be read, how many files it
/// lists and how many of them are missing; of any other, neither.
pub proof fn law_report_tells_what_was_found(
    r: Report,
    status_finished: bool,
    on_disk: (u64, u64),
    check: CheckView,
    present: Seq<bool>,
    files_reported: u64,
)
    requires
        reports(r, status_finished, on_disk, check, present, files_reported),
        check matches CheckView::Intact(ids) ==> ids.len() == present.len() <= u64::MAX,
    ensures
        r.files_on_disk == on_disk.0,
        r.total_bytes == on_disk.1,
        r.files_reported == files_reported,
        r.status_finished == status_finished,
        match check {
            CheckView::Intact(ids) => {
                &&& r.files_expected matches Some(n) && n == ids.len()
                &&& r.files_missing == missing_count(ids, present)
                &&& r.manifest_integrity_checked
                &&& r.files_missing > 0 ==> texts(r.problems@).last() == decimal(
                    r.files_missing as nat,
                ) + " of "@ + decimal(ids.len())
                    + " file(s) listed in Manifest.db are missing on disk."@
            },
            CheckView::Failed { reason, checked } => {
                &&& r.files_expected is None
                &&& r.files_missing == 0
                &&& r.manifest_integrity_checked == checked
                &&& texts(r.problems@).last() == reason
            },
            CheckView::NeedsPassword => {
                &&& r.files_expected is None
                &&& r.files_missing == 0
                &&& !r.manifest_integrity_checked
            },
        },
        !status_finished ==> texts(r.problems@).len() > 0 && texts(r.problems@)[0]
            == NOT_FINISHED@,
        r.problems@.len() == (if status_finished {
            0int
        } else {
            1
        }) + (if check is Failed || (check is Intact && r.files_missing > 0) {
            1int
        } else {
            0
        }),
{
    if let CheckView::Intact(ids) = check {
        missing_count_bounded(ids, present);
    }
    assert(texts(r.problems@).len() == r.problems@.len());
}

/// A file is on disk just when one of the directories whose name has two bytes holds
/// one of that name.
pub proof fn law_on_disk(entries: Seq<TopEntry>, e: TopEntry, id: Seq<char>)
    ensures
        !on_disk(seq![], id),
        on_disk(entries.push(e), id) <==> on_disk(entries, id) || (e.is_dir && e.name_len == 2
            && exists|j: int|
            0 <= j < e.files@.len() && (#[trigger] e.files@[j]) is Some && e.files@[j]->0@ == id),
{
    let all = entries.push(e);
    let n = entries.len() as int;
    assert(all[n] == e);
    if on_disk(all, id) {
        let (i, j) = choose|i: int, j: int|
            0 <= i < all.len() && all[i].is_dir && all[i].name_len == 2 && 0 <= j
                < all[i].files@.len() && names(#[trigger] all[i].files@[j], id);
        if i < n {
            assert(entries[i] == all[i]);
            assert(names(entries[i].files@[j], id));
        } else {
            assert(e.files@[j] is Some);
        }
    }
    if on_disk(entries, id) {
        let (i, j) = choose|i: int, j: int|
            0 <= i < entries.len() && entries[i].is_dir && entries[i].name_len == 2 && 0 <= j
                < entries[i].files@.len() && names(#[trigger] entries[i].files@[j], id);
        assert(all[i] == entries[i]);
        assert(names(all[i].files@[j], id));
    }
    if e.is_dir && e.name_len == 2 && exists|j: int|
        0 <= j < e.files@.len() && (#[trigger] e.files@[j]) is Some && e.files@[j]->0@ == id {
        let j = choose|j: int|
            0 <= j < e.files@.len() && (#[trigger] e.files@[j]) is Some && e.files@[j]->0@ == id;
        assert(names(all[n].files@[j], id));
    }
}

} // verus!
