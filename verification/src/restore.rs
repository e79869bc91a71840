//! Restoring a backup: staging a copy of it, and handing it to the device.
use vstd::prelude::*;

use crate::backup::env_views;
use crate::error::{viewed, CradleError, ErrorView};
use crate::libimobiledevice::RunResult;
use crate::paths::{
    components, file_name, file_name_of, join, joined, lies_within, parent, parent_of, within,
};
use crate::plists::{
    file_members, file_view, find_text, members_view, read_members, text_member, PlistValue,
    PlistView,
};
use crate::text::{texts, texts_push};
use crate::verify::{scan_backup_dir, sum};

verus! {

broadcast use texts_push;

// --- staging ---------------------------------------------------------------------------

/// Where a backup is staged from and to.
#[derive(Debug)]
pub struct StagePaths {
    pub source: String,
    pub dest: String,
}

/// Where the backup of a device is staged from and to.
pub fn stage_paths(working_root: &str, source_udid: &str, scratch_dir: &str) -> (p: StagePaths)
    ensures
        p.source@ == joined(working_root@, source_udid@),
        p.dest@ == joined(scratch_dir@, source_udid@),
{
    StagePaths { source: join(working_root, source_udid), dest: join(scratch_dir, source_udid) }
}

/// What is said when there is no backup to stage.
pub fn no_backup_at(source: &str) -> (e: CradleError)
    ensures
        e@ == ErrorView::Other(
            "no backup found at "@ + source@
                + " — run `cradle backup` first, or use --from-archive instead"@,
        ),
{
    CradleError::Other(
        "no backup found at ".to_owned().concat(source).concat(
            " — run `cradle backup` first, or use --from-archive instead",
        ),
    )
}

/// A path that is being resolved: the part of it that may exist, and the names
/// below that, the lowest first.
#[derive(Debug)]
pub struct PrefixProbe {
    path: String,
    existing: String,
    pending: Vec<String>,
}

/// What a [`PrefixProbe`] has come to.
pub struct ProbeView {
    /// The path as it was given.
    pub path: Seq<char>,
    /// The part of it that may exist.
    pub existing: Seq<char>,
    /// The names below that, the lowest first.
    pub pending: Seq<Seq<char>>,
}

impl View for PrefixProbe {
    type V = ProbeView;

    closed spec fn view(&self) -> ProbeView {
        ProbeView {
            path: self.path@,
            existing: self.existing@,
            pending: texts(self.pending@),
        }
    }
}

/// `base` with `pending` below it, the last of it first.
pub open spec fn extended(base: Seq<char>, pending: Seq<Seq<char>>) -> Seq<char>
    decreases pending.len(),
{
    if pending.len() == 0 {
        base
    } else {
        extended(joined(base, pending.last()), pending.drop_last())
    }
}

impl PrefixProbe {
    /// Starts to resolve a path.
    pub fn new(path: &str) -> (p: PrefixProbe)
        ensures
            p@ == (ProbeView { path: path@, existing: path@, pending: seq![] }),
    {
        let p = PrefixProbe {
            path: path.to_owned(),
            existing: path.to_owned(),
            pending: Vec::new(),
        };
        assert(texts(p.pending@) =~= seq![]);
        p
    }

    /// The part of the path to look for next.
    pub fn existing(&self) -> (s: &str)
        ensures
            s@ == self@.existing,
    {
        self.existing.as_str()
    }

    /// Takes in that the part looked for does not exist: its last name is set
    /// aside. A path of which no part exists cannot be resolved.
    pub fn not_there(&mut self) -> (r: Result<(), CradleError>)
        ensures
            final(self)@.path == old(self)@.path,
            match (file_name(old(self)@.existing), parent(old(self)@.existing)) {
                (Some(name), Some(up)) => {
                    &&& r is Ok
                    &&& final(self)@.existing == up
                    &&& final(self)@.pending == old(self)@.pending.push(name)
                },
                _ => {
                    &&& r matches Err(e) && e@ == ErrorView::Other(
                        "path "@ + old(self)@.path + " has no existing ancestor to resolve"@,
                    )
                    &&& final(self)@ == old(self)@
                },
            },
    {
        let name = file_name_of(self.existing.as_str());
        let up = parent_of(self.existing.as_str());
        match (name, up) {
            (Some(name), Some(up)) => {
                self.pending.push(name);
                self.existing = up;
                Ok(())
            },
            _ => Err(
                CradleError::Other(
                    "path ".to_owned().concat(self.path.as_str()).concat(
                        " has no existing ancestor to resolve",
                    ),
                ),
            ),
        }
    }

    /// The resolved path: the names set aside, below what the existing part
    /// resolves to.
    pub fn resolved(&self, canonical: &str) -> (s: String)
        ensures
            s@ == extended(canonical@, self@.pending),
    {
        let mut out = canonical.to_owned();
        let ghost all = texts(self.pending@);
        let mut n: usize = self.pending.len();
        assert(all.take(n as int) =~= all);
        while n > 0
            invariant
                n <= self.pending@.len(),
                all == texts(self.pending@),
                extended(canonical@, all) == extended(out@, all.take(n as int)),
            decreases n,
        {
            proof {
                let now = all.take(n as int);
                assert(now.last() == self.pending@[n - 1]@);
                assert(now.drop_last() =~= all.take(n - 1));
            }
            out = join(out.as_str(), self.pending[n - 1].as_str());
            n = n - 1;
        }
        out
    }
}

/// Whether two paths lie one within the other, or are the same.
pub open spec fn overlapping(a: Seq<char>, b: Seq<char>) -> bool {
    within(components(a), components(b)) || within(components(b), components(a))
}

/// Refuses to stage a backup into itself, or itself into where it is staged:
/// the resolved source and destination must lie apart.
pub fn reject_overlapping_paths(
    real_source: &str,
    real_dest: &str,
    source: &str,
    dest: &str,
) -> (r: Result<(), CradleError>)
    ensures
        match r {
            Ok(()) => !overlapping(real_source@, real_dest@),
            Err(e) => overlapping(real_source@, real_dest@) && e@ == ErrorView::Other(
                "restore staging destination "@ + dest@ + " overlaps with its source "@ + source@
                    + " — refusing to copy a directory into itself"@,
            ),
        },
{
    if lies_within(real_dest, real_source) || lies_within(real_source, real_dest) {
        return Err(
            CradleError::Other(
                "restore staging destination ".to_owned().concat(dest).concat(
                    " overlaps with its source ",
                ).concat(source).concat(" — refusing to copy a directory into itself"),
            ),
        );
    }
    Ok(())
}

/// Whether paths overlap does not depend on which of them is the source, and a
/// path overlaps with itself.
pub proof fn law_overlap_is_mutual(a: Seq<char>, b: Seq<char>)
    ensures
        overlapping(a, b) == overlapping(b, a),
        overlapping(a, a),
{
    assert(components(a).take(components(a).len() as int) =~= components(a));
}

/// How often removing a directory is tried.
pub const REMOVAL_ATTEMPTS: u32 = 5;

/// How many milliseconds lie between two tries.
pub const REMOVAL_DELAY_MILLIS: u64 = 200;

/// The system's error number for a directory that is not empty.
pub const NOT_EMPTY: i32 = 66;

/// Whether removing a directory is tried again after try number `attempt`
/// failed with `os_error`: only where something was put into it meanwhile, and
/// only so often.
pub fn retry_removal(attempt: u32, os_error: Option<i32>) -> (r: bool)
    ensures
        r == (os_error == Some(NOT_EMPTY) && attempt < REMOVAL_ATTEMPTS),
{
    match os_error {
        Some(n) => n == NOT_EMPTY && attempt < REMOVAL_ATTEMPTS,
        None => false,
    }
}

/// The number of files below a directory, and their bytes, from their sizes.
pub fn dir_totals(sizes: &Vec<u64>) -> (r: (u64, u64))
    requires
        sum(sizes@) <= u64::MAX,
    ensures
        r.0 == sizes@.len(),
        r.1 == sum(sizes@),
{
    scan_backup_dir(sizes)
}

/// The bytes of a staged backup, from the sizes of its files.
pub fn staged_backup_size(sizes: &Vec<u64>) -> (bytes: u64)
    requires
        sum(sizes@) <= u64::MAX,
    ensures
        bytes == sum(sizes@),
{
    let (_, bytes) = dir_totals(sizes);
    bytes
}

/// The device a staged backup was made of: the name of its directory.
pub fn source_udid_from_staged_dir(staged_dir: &str) -> (r: Option<String>)
    ensures
        match r {
            Some(udid) => file_name(staged_dir@) == Some(udid@),
            None => file_name(staged_dir@) is None,
        },
{
    file_name_of(staged_dir)
}

/// The version of iOS that a backup's information names.
pub open spec fn product_version(info: Result<Seq<(Seq<char>, PlistView)>, Seq<char>>) -> Result<
    Seq<char>,
    ErrorView,
> {
    match info {
        Err(words) => Err(ErrorView::Other("could not read Info.plist: "@ + words)),
        Ok(members) => match text_member(members, "Product Version"@) {
            Some(v) => Ok(v),
            None => Err(ErrorView::Other("Info.plist has no \"Product Version\" key"@)),
        },
    }
}

/// The iOS version in what was read of `Info.plist`.
pub fn read_version(info: &Result<Vec<(String, PlistValue)>, String>) -> (r: Result<
    String,
    CradleError,
>)
    ensures
        viewed(r) == product_version(members_view(*info)),
{
    match info {
        Err(words) => Err(
            CradleError::Other("could not read Info.plist: ".to_owned().concat(words.as_str())),
        ),
        Ok(members) => match find_text(members, "Product Version") {
            Some(v) => Ok(v),
            None => Err(
                CradleError::Other("Info.plist has no \"Product Version\" key".to_owned()),
            ),
        },
    }
}

/// The version of iOS that a backup was made on, from its `Info.plist`.
pub fn backup_ios_version(info: &Result<&[u8], String>) -> (r: Result<String, CradleError>)
    ensures
        viewed(r) == product_version(file_members(file_view(*info))),
{
    read_version(&read_members(info))
}

// --- handing it to the device ----------------------------------------------------------------

/// What a restore does beside copying data back.
#[derive(Debug, Clone)]
pub struct RestoreConfig {
    /// Reboot the device at the end.
    pub reboot: bool,
    /// Restore system files too.
    pub system_files: bool,
    /// Restore device settings too.
    pub restore_settings: bool,
}

impl Default for RestoreConfig {
    fn default() -> (c: RestoreConfig)
        ensures
            c == (RestoreConfig { reboot: true, system_files: false, restore_settings: false }),
    {
        RestoreConfig { reboot: true, system_files: false, restore_settings: false }
    }
}

/// What came of a restore that succeeded.
#[derive(Debug, Clone)]
pub struct Outcome {
    pub target_udid: String,
}

/// The flags a configuration adds.
pub open spec fn config_flags(c: RestoreConfig) -> Seq<Seq<char>> {
    (if c.system_files {
        seq!["--system"@]
    } else {
        seq![]
    }) + (if !c.reboot {
        seq!["--no-reboot"@]
    } else {
        seq![]
    }) + (if c.restore_settings {
        seq!["--settings"@]
    } else {
        seq![]
    })
}

/// The arguments that make `idevicebackup2` restore a staged backup: the tool
/// wants the directory that the staged one lies in.
pub fn restore_args(
    target_udid: &str,
    staged_dir: &str,
    source_udid: &str,
    config: &RestoreConfig,
) -> (r: Result<Vec<String>, CradleError>)
    ensures
        match (r, parent(staged_dir@)) {
            (Ok(args), Some(root)) => texts(args@) == seq![
                "-u"@,
                target_udid@,
                "-s"@,
                source_udid@,
                "restore"@,
            ] + config_flags(*config) + seq![root],
            (Err(e), None) => e@ == ErrorView::Other(
                "staged directory "@ + staged_dir@
                    + " has no parent directory — expected <root>/"@ + source_udid@,
            ),
            _ => false,
        },
{
    let root = match parent_of(staged_dir) {
        Some(root) => root,
        None => return Err(
            CradleError::Other(
                "staged directory ".to_owned().concat(staged_dir).concat(
                    " has no parent directory — expected <root>/",
                ).concat(source_udid),
            ),
        ),
    };
    let mut args: Vec<String> = vec![
        "-u".to_owned(),
        target_udid.to_owned(),
        "-s".to_owned(),
        source_udid.to_owned(),
        "restore".to_owned(),
    ];
    if config.system_files {
        args.push("--system".to_owned());
    }
    if !config.reboot {
        args.push("--no-reboot".to_owned());
    }
    if config.restore_settings {
        args.push("--settings".to_owned());
    }
    args.push(root);
    assert(texts(args@) =~= seq!["-u"@, target_udid@, "-s"@, source_udid@, "restore"@]
        + config_flags(*config) + seq![root@]);
    Ok(args)
}

/// The environment of a restore: the backup's password goes by it, and by
/// nothing else.
pub fn restore_env(password: Option<&str>) -> (env: Vec<(String, String)>)
    ensures
        env_views(env@) == (match password {
            Some(p) => seq![("BACKUP_PASSWORD"@, p@)],
            None => seq![],
        }),
{
    let mut env: Vec<(String, String)> = Vec::new();
    if let Some(p) = password {
        env.push(("BACKUP_PASSWORD".to_owned(), p.to_owned()));
        assert(env_views(env@) =~= seq![("BACKUP_PASSWORD"@, p@)]);
    } else {
        assert(env_views(env@) =~= seq![]);
    }
    env
}

/// What came of a restore.
pub fn run(result: RunResult, target_udid: &str) -> (r: Result<Outcome, CradleError>)
    ensures
        match (result.outcome, r) {
            (Ok(()), Ok(o)) => o.target_udid@ == target_udid@,
            (Err(e), Err(x)) => e@ == x@,
            _ => false,
        },
{
    match result.outcome {
        Ok(()) => Ok(Outcome { target_udid: target_udid.to_owned() }),
        Err(e) => Err(e),
    }
}

/// The names set aside go below the resolved part as they stood: the lowest was set
/// aside first, and comes last.
pub proof fn law_names_go_back_below(base: Seq<char>, lowest: Seq<char>, above: Seq<Seq<char>>)
    ensures
        extended(base, seq![]) == base,
        extended(base, seq![lowest] + above) == joined(extended(base, above), lowest),
    decreases above.len(),
{
    let all = seq![lowest] + above;
    if above.len() == 0 {
        assert(all =~= seq![lowest]);
        assert(all.drop_last() =~= seq![]);
        assert(extended(joined(base, lowest), seq![]) == joined(base, lowest));
    } else {
        assert(all.last() == above.last());
        assert(all.drop_last() =~= seq![lowest] + above.drop_last());
        law_names_go_back_below(joined(base, above.last()), lowest, above.drop_last());
    }
}

/// Two paths overlap just when one starts with all the components of the other.
pub proof fn law_overlap(a: Seq<char>, b: Seq<char>)
    ensures
        overlapping(a, b) <==> forall|i: int|
            0 <= i < components(a).len() && i < components(b).len() ==> components(a)[i]
                == components(b)[i],
{
    let x = components(a);
    let y = components(b);
    if forall|i: int| 0 <= i < x.len() && i < y.len() ==> x[i] == y[i] {
        if y.len() <= x.len() {
            assert(x.take(y.len() as int) =~= y);
        } else {
            assert(y.take(x.len() as int) =~= x);
        }
    }
    if within(x, y) {
        assert forall|i: int| 0 <= i < x.len() && i < y.len() implies x[i] == y[i] by {
            assert(x.take(y.len() as int)[i] == x[i]);
        }
    }
    if within(y, x) {
        assert forall|i: int| 0 <= i < x.len() && i < y.len() implies x[i] == y[i] by {
            assert(y.take(x.len() as int)[i] == y[i]);
        }
    }
}

/// System files and settings are restored only where asked for, and the device reboots
/// unless it is not to; nothing else is asked of the tool.
pub proof fn law_config_flags(c: RestoreConfig)
    ensures
        config_flags(c).contains("--system"@) <==> c.system_files,
        config_flags(c).contains("--no-reboot"@) <==> !c.reboot,
        config_flags(c).contains("--settings"@) <==> c.restore_settings,
        forall|i: int|
            0 <= i < config_flags(c).len() ==> #[trigger] config_flags(c)[i] == "--system"@
                || config_flags(c)[i] == "--no-reboot"@ || config_flags(c)[i] == "--settings"@,
        config_flags(c).no_duplicates(),
{
    reveal_strlit("--system");
    reveal_strlit("--no-reboot");
    reveal_strlit("--settings");
    assert("--system"@.len() == 8 && "--no-reboot"@.len() == 11 && "--settings"@.len() == 10);
    let f = config_flags(c);
    if c.system_files {
        assert(f[0] == "--system"@);
    }
    if !c.reboot {
        assert(f[if c.system_files {
            1int
        } else {
            0int
        }] == "--no-reboot"@);
    }
    if c.restore_settings {
        assert(f[f.len() - 1] == "--settings"@);
    }
}

/// The version of a backup is the text its information has for it; without one, or
/// without information, there is none.
pub proof fn law_product_version(members: Seq<(Seq<char>, PlistView)>, words: Seq<char>)
    ensures
        match text_member(members, "Product Version"@) {
            Some(v) => product_version(Ok(members)) == Ok::<_, ErrorView>(v),
            None => product_version(Ok(members)) is Err,
        },
        product_version(Err(words)) == Err::<Seq<char>, _>(
            ErrorView::Other("could not read Info.plist: "@ + words),
        ),
{
}

} // verus!
