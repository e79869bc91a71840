//! What has to hold before a backup or a restore may start.
use vstd::prelude::*;

use crate::libimobiledevice::{DeviceInfo, PairingCheck};
use crate::paths::{components, parent, parent_of, same_path};
use crate::text::{
    decimal, law_numerals_read_back, parse_u32, pieces, pieces_of, texts, unsigned,
};

verus! {

/// The least free disk space a backup starts with.
pub const MIN_FREE_BYTES: u64 = 5_368_709_120;

/// The free memory below which a backup is at risk.
pub const MIN_FREE_MEMORY_BYTES: u64 = 1_073_741_824;

// --- disk space ------------------------------------------------------------------------

/// Where to measure the disk space of a path that does not exist: at the
/// directory it lies in, unless that is where volumes are mounted, in which
/// case its own volume is not mounted and nothing can be said of it.
pub open spec fn measured_instead(dir: Seq<char>) -> Option<Seq<char>> {
    match parent(dir) {
        Some(p) => if components(p) == components("/Volumes"@) {
            None
        } else {
            Some(p)
        },
        None => None,
    }
}

/// Where to measure the disk space of a path that does not exist.
pub fn measure_instead(dir: &str) -> (r: Option<String>)
    ensures
        match r {
            Some(p) => measured_instead(dir@) == Some(p@),
            None => measured_instead(dir@) is None,
        },
{
    match parent_of(dir) {
        Some(p) => if same_path(p.as_str(), "/Volumes") {
            None
        } else {
            Some(p)
        },
        None => None,
    }
}

/// The place at which disk space is measured: the first of `dir`, the
/// directory it lies in, and so on, that exists. `exists` answers for each in
/// turn; `None` says that the space is unknown.
pub open spec fn measured_at(dir: Seq<char>, exists: Seq<bool>) -> Option<Seq<char>>
    decreases exists.len(),
{
    if exists.len() == 0 {
        None
    } else if exists[0] {
        Some(dir)
    } else {
        match measured_instead(dir) {
            Some(p) => measured_at(p, exists.skip(1)),
            None => None,
        }
    }
}

/// The place at which disk space is measured, from whether each place tried in
/// turn exists.
pub fn measure_at(dir: &str, exists: &Vec<bool>) -> (r: Option<String>)
    ensures
        match r {
            Some(p) => measured_at(dir@, exists@) == Some(p@),
            None => measured_at(dir@, exists@) is None,
        },
{
    let mut at = dir.to_owned();
    let mut i: usize = 0;
    assert(exists@.skip(0) =~= exists@);
    while i < exists.len()
        invariant
            i <= exists@.len(),
            measured_at(dir@, exists@) == measured_at(at@, exists@.skip(i as int)),
        decreases exists@.len() - i,
    {
        assert(exists@.skip(i as int)[0] == exists@[i as int]);
        if exists[i] {
            return Some(at);
        }
        assert(exists@.skip(i as int).skip(1) =~= exists@.skip(i + 1));
        match measure_instead(at.as_str()) {
            Some(p) => {
                at = p;
            },
            None => {
                return None;
            },
        }
        i = i + 1;
    }
    None
}

/// The directory `levels` levels above a path.
pub open spec fn above(dir: Seq<char>, levels: nat) -> Option<Seq<char>>
    decreases levels,
{
    if levels == 0 {
        Some(dir)
    } else {
        match parent(dir) {
            Some(p) => above(p, (levels - 1) as nat),
            None => None,
        }
    }
}

/// A path on a volume that is not mounted is never measured, however deep it
/// lies: its space is unknown, not that of the disk the mount point lies on.
pub proof fn law_unmounted_volume_is_unknown(dir: Seq<char>, levels: nat, exists: Seq<bool>)
    requires
        levels < exists.len(),
        forall|i: int| 0 <= i <= levels ==> !exists[i],
        above(dir, levels) matches Some(root) && parent(root) matches Some(p) && components(p)
            == components("/Volumes"@),
    ensures
        measured_at(dir, exists) is None,
    decreases levels,
{
    if levels > 0 {
        if let Some(p) = measured_instead(dir) {
            let rest = exists.skip(1);
            assert forall|i: int| 0 <= i <= levels - 1 implies !rest[i] by {
                assert(rest[i] == exists[i + 1]);
            }
            law_unmounted_volume_is_unknown(p, (levels - 1) as nat, rest);
        }
    }
}

/// The bytes free on a filesystem, from its free blocks and their size:
/// unknown where the number does not fit.
pub fn free_disk_space(free_blocks: u64, block_size: u64) -> (r: Option<u64>)
    ensures
        match r {
            Some(n) => n == free_blocks * block_size,
            None => free_blocks * block_size > u64::MAX,
        },
{
    free_blocks.checked_mul(block_size)
}

// --- before a backup ----------------------------------------------------------------------

/// What is known before a backup.
#[derive(Debug, Clone)]
pub struct Report {
    pub pairing_valid: bool,
    /// What to do about the pairing, where it is not valid.
    pub pairing_message: Option<String>,
    pub encryption_enabled: bool,
    pub free_space_bytes: Option<u64>,
    pub free_space_ok: bool,
    pub free_memory_bytes: Option<u64>,
    pub device: Option<DeviceInfo>,
}

impl Report {
    /// Whether a backup may start.
    pub open spec fn allows(&self) -> bool {
        self.pairing_valid && self.encryption_enabled && self.free_space_ok
    }

    /// Whether a backup may start. Low memory does not stand in its way.
    pub fn passed(&self) -> (r: bool)
        ensures
            r == self.allows(),
    {
        self.pairing_valid && self.encryption_enabled && self.free_space_ok
    }
}

/// Whether there is enough disk space: never, where it is not known.
pub open spec fn space_enough(free: Option<u64>, needed: u64) -> bool {
    match free {
        Some(n) => n >= needed,
        None => false,
    }
}

/// Whether there is enough disk space: never, where it is not known.
fn enough(free: Option<u64>, needed: u64) -> (r: bool)
    ensures
        r == space_enough(free, needed),
{
    match free {
        Some(n) => n >= needed,
        None => false,
    }
}

/// What a paired device answered before a backup.
#[derive(Debug)]
pub struct BackupAnswers {
    /// What identifies it, where that could be read.
    pub device: Option<DeviceInfo>,
    pub encryption_enabled: bool,
}

/// Sums up what is known before a backup. A device that is not paired is not
/// asked anything else.
pub fn run(
    free_space_bytes: Option<u64>,
    free_memory_bytes: Option<u64>,
    pairing: PairingCheck,
    answers: BackupAnswers,
) -> (r: Report)
    ensures
        r.pairing_valid == pairing.valid,
        r.pairing_message == (if pairing.valid {
            None
        } else {
            pairing.message
        }),
        r.encryption_enabled == (pairing.valid && answers.encryption_enabled),
        r.free_space_bytes == free_space_bytes,
        r.free_space_ok == space_enough(free_space_bytes, MIN_FREE_BYTES),
        r.free_memory_bytes == free_memory_bytes,
        r.device == (if pairing.valid {
            answers.device
        } else {
            None
        }),
{
    let free_space_ok = enough(free_space_bytes, MIN_FREE_BYTES);
    if !pairing.valid {
        return Report {
            pairing_valid: false,
            pairing_message: pairing.message,
            encryption_enabled: false,
            free_space_bytes,
            free_space_ok,
            free_memory_bytes,
            device: None,
        };
    }
    Report {
        pairing_valid: true,
        pairing_message: None,
        encryption_enabled: answers.encryption_enabled,
        free_space_bytes,
        free_space_ok,
        free_memory_bytes,
        device: answers.device,
    }
}

// --- versions -----------------------------------------------------------------------------

/// The number that a part of a version spells, zero where it spells none.
pub open spec fn part_number(part: Seq<char>) -> nat {
    match unsigned(part, u32::MAX as nat) {
        Some(n) => n,
        None => 0,
    }
}

/// The numbers of a version, between its dots.
pub open spec fn version(v: Seq<char>) -> Seq<nat> {
    pieces(v, '.').map_values(|p: Seq<char>| part_number(p))
}

/// Whether version `a` is at least version `b`: at the first place where they
/// differ the larger number is the larger version, and a version is larger
/// than what it starts with.
pub open spec fn at_least(a: Seq<nat>, b: Seq<nat>) -> bool
    decreases a.len(),
{
    if b.len() == 0 {
        true
    } else if a.len() == 0 {
        false
    } else if a[0] != b[0] {
        a[0] > b[0]
    } else {
        at_least(a.skip(1), b.skip(1))
    }
}

/// The numbers of a parsed version.
pub open spec fn numbers(v: Seq<u32>) -> Seq<nat> {
    v.map_values(|n: u32| n as nat)
}

/// The numbers of a version, between its dots.
pub fn parse_version(v: &str) -> (out: Vec<u32>)
    ensures
        numbers(out@) == version(v@),
{
    let ps = pieces_of(v, '.');
    let ghost all = pieces(v@, '.');
    let ghost number = |p: Seq<char>| part_number(p);
    let mut out: Vec<u32> = Vec::new();
    let mut i: usize = 0;
    assert(numbers(out@) =~= all.take(0).map_values(number));
    while i < ps.len()
        invariant
            i <= ps@.len(),
            texts(ps@) == all,
            number == (|p: Seq<char>| part_number(p)),
            numbers(out@) == all.take(i as int).map_values(number),
        decreases ps@.len() - i,
    {
        let n: u32 = match parse_u32(ps[i].as_str()) {
            Some(n) => n,
            None => 0,
        };
        proof {
            assert(all[i as int] == texts(ps@)[i as int]);
            assert(texts(ps@)[i as int] == ps@[i as int]@);
            assert(numbers(out@.push(n)) =~= numbers(out@).push(n as nat));
            assert(all.take(i + 1).map_values(number) =~= all.take(i as int).map_values(
                number,
            ).push(number(all[i as int])));
        }
        out.push(n);
        i = i + 1;
    }
    assert(all.take(i as int) =~= all);
    out
}

/// Whether the version `target` is at least the version `backup`.
pub fn ios_version_at_least(target: &str, backup: &str) -> (r: bool)
    ensures
        r == at_least(version(target@), version(backup@)),
{
    let a = parse_version(target);
    let b = parse_version(backup);
    let ghost x = numbers(a@);
    let ghost y = numbers(b@);
    let mut i: usize = 0;
    assert(x.skip(0) =~= x);
    assert(y.skip(0) =~= y);
    loop
        invariant
            i <= a@.len(),
            i <= b@.len(),
            x == numbers(a@),
            y == numbers(b@),
            x == version(target@),
            y == version(backup@),
            at_least(x, y) == at_least(x.skip(i as int), y.skip(i as int)),
        decreases a@.len() - i,
    {
        if i == b.len() {
            return true;
        }
        if i == a.len() {
            return false;
        }
        proof {
            assert(x.skip(i as int)[0] == a@[i as int] as nat);
            assert(y.skip(i as int)[0] == b@[i as int] as nat);
            assert(x.skip(i as int).skip(1) =~= x.skip(i + 1));
            assert(y.skip(i as int).skip(1) =~= y.skip(i + 1));
        }
        if a[i] != b[i] {
            return a[i] > b[i];
        }
        i = i + 1;
    }
}

/// Every version is at least itself.
pub proof fn law_version_reflexive(a: Seq<nat>)
    ensures
        at_least(a, a),
    decreases a.len(),
{
    if a.len() > 0 {
        law_version_reflexive(a.skip(1));
    }
}

/// Of two versions one is at least the other, and both are only where they are
/// the same.
pub proof fn law_version_total(a: Seq<nat>, b: Seq<nat>)
    ensures
        at_least(a, b) || at_least(b, a),
        at_least(a, b) && at_least(b, a) ==> a == b,
    decreases a.len(),
{
    if a.len() > 0 && b.len() > 0 && a[0] == b[0] {
        law_version_total(a.skip(1), b.skip(1));
        if a.skip(1) == b.skip(1) {
            assert(a =~= seq![a[0]] + a.skip(1));
            assert(b =~= seq![b[0]] + b.skip(1));
        }
    } else if a.len() == 0 && b.len() == 0 {
        assert(a =~= b);
    }
}

/// A version at least one that is at least a third is at least the third.
pub proof fn law_version_transitive(a: Seq<nat>, b: Seq<nat>, c: Seq<nat>)
    requires
        at_least(a, b),
        at_least(b, c),
    ensures
        at_least(a, c),
    decreases a.len(),
{
    if a.len() > 0 && b.len() > 0 && c.len() > 0 && a[0] == b[0] && b[0] == c[0] {
        law_version_transitive(a.skip(1), b.skip(1), c.skip(1));
    }
}

// --- before a restore ------------------------------------------------------------------------

/// What is known before a restore.
#[derive(Debug, Clone)]
pub struct RestoreReport {
    pub pairing_valid: bool,
    /// What to do about the pairing, where it is not valid.
    pub pairing_message: Option<String>,
    pub find_my_disabled: bool,
    pub target_ios_version: Option<String>,
    pub backup_ios_version: String,
    pub target_ios_ok: bool,
    pub backup_size_bytes: u64,
    pub target_free_bytes: Option<u64>,
    pub enough_target_space: bool,
    pub device: Option<DeviceInfo>,
}

impl RestoreReport {
    /// Whether a restore may start.
    pub open spec fn allows(&self) -> bool {
        self.pairing_valid && self.find_my_disabled && self.target_ios_ok
            && self.enough_target_space
    }

    /// Whether a restore may start.
    pub fn passed(&self) -> (r: bool)
        ensures
            r == self.allows(),
    {
        self.pairing_valid && self.find_my_disabled && self.target_ios_ok
            && self.enough_target_space
    }
}

/// What a paired device answered before a restore.
#[derive(Debug)]
pub struct RestoreAnswers {
    /// What identifies it, where that could be read.
    pub device: Option<DeviceInfo>,
    pub find_my_associated: bool,
    /// Bytes free on it, where that could be read.
    pub free_bytes: Option<u64>,
}

/// Whether a device may take a backup made on `backup_ios_version`: only where
/// its own version is known and at least that.
pub open spec fn version_ok(device: Option<DeviceInfo>, backup_ios_version: Seq<char>) -> bool {
    match device {
        Some(d) => at_least(version(d.ios_version@), version(backup_ios_version)),
        None => false,
    }
}

/// Sums up what is known before a restore. A device that is not paired is not
/// asked anything else.
pub fn run_restore(
    pairing: PairingCheck,
    answers: RestoreAnswers,
    backup_ios_version: &str,
    backup_size_bytes: u64,
) -> (r: RestoreReport)
    ensures
        r.pairing_valid == pairing.valid,
        r.pairing_message == (if pairing.valid {
            None
        } else {
            pairing.message
        }),
        r.find_my_disabled == (pairing.valid && !answers.find_my_associated),
        match r.target_ios_version {
            Some(v) => pairing.valid && (answers.device matches Some(d) && v@ == d.ios_version@),
            None => !pairing.valid || answers.device is None,
        },
        r.backup_ios_version@ == backup_ios_version@,
        r.target_ios_ok == (pairing.valid && version_ok(answers.device, backup_ios_version@)),
        r.backup_size_bytes == backup_size_bytes,
        r.target_free_bytes == (if pairing.valid {
            answers.free_bytes
        } else {
            None
        }),
        r.enough_target_space == (pairing.valid && space_enough(
            answers.free_bytes,
            backup_size_bytes,
        )),
        r.device == (if pairing.valid {
            answers.device
        } else {
            None
        }),
{
    if !pairing.valid {
        return RestoreReport {
            pairing_valid: false,
            pairing_message: pairing.message,
            find_my_disabled: false,
            target_ios_version: None,
            backup_ios_version: backup_ios_version.to_owned(),
            target_ios_ok: false,
            backup_size_bytes,
            target_free_bytes: None,
            enough_target_space: false,
            device: None,
        };
    }
    let (target_ios_version, target_ios_ok) = match &answers.device {
        Some(d) => (
            Some(d.ios_version.clone()),
            ios_version_at_least(d.ios_version.as_str(), backup_ios_version),
        ),
        None => (None, false),
    };
    let enough_target_space = enough(answers.free_bytes, backup_size_bytes);
    RestoreReport {
        pairing_valid: true,
        pairing_message: None,
        find_my_disabled: !answers.find_my_associated,
        target_ios_version,
        backup_ios_version: backup_ios_version.to_owned(),
        target_ios_ok,
        backup_size_bytes,
        target_free_bytes: answers.free_bytes,
        enough_target_space,
        device: answers.device,
    }
}

/// The first number in which two versions differ decides, however long they are.
pub proof fn law_first_difference_decides(a: Seq<nat>, b: Seq<nat>, n: int)
    requires
        0 <= n < a.len(),
        n < b.len(),
        forall|i: int| 0 <= i < n ==> a[i] == b[i],
        a[n] != b[n],
    ensures
        at_least(a, b) <==> a[n] > b[n],
    decreases n,
{
    if n > 0 {
        let x = a.skip(1);
        let y = b.skip(1);
        assert(a[0] == b[0]);
        assert forall|i: int| 0 <= i < n - 1 implies x[i] == y[i] by {
            assert(a[i + 1] == b[i + 1]);
        }
        assert(x[n - 1] == a[n] && y[n - 1] == b[n]);
        law_first_difference_decides(x, y, n - 1);
    }
}

/// A version that another starts with is at least that other only where they are
/// the same; the longer one is always at least the shorter.
pub proof fn law_longer_version_is_later(a: Seq<nat>, b: Seq<nat>)
    requires
        a.len() < b.len(),
        forall|i: int| 0 <= i < a.len() ==> a[i] == b[i],
    ensures
        at_least(b, a),
        !at_least(a, b),
    decreases a.len(),
{
    if a.len() > 0 {
        let x = a.skip(1);
        let y = b.skip(1);
        assert(a[0] == b[0]);
        assert forall|i: int| 0 <= i < x.len() implies x[i] == y[i] by {
            assert(a[i + 1] == b[i + 1]);
        }
        law_longer_version_is_later(x, y);
    }
}

/// A version is one number for each part between its dots: that which the part
/// spells, or zero where it spells none that fits.
pub proof fn law_version_parts(v: Seq<char>, i: int)
    requires
        0 <= i < pieces(v, '.').len(),
    ensures
        version(v).len() == pieces(v, '.').len(),
        forall|n: nat|
            n <= u32::MAX && pieces(v, '.')[i] == #[trigger] decimal(n) ==> version(v)[i] == n,
        unsigned(pieces(v, '.')[i], u32::MAX as nat) is None ==> version(v)[i] == 0,
{
    assert forall|n: nat| n <= u32::MAX && pieces(v, '.')[i] == #[trigger] decimal(n) implies
        version(v)[i] == n by {
        law_numerals_read_back(n, u32::MAX as nat);
    }
}

/// Space that is not known is never enough, and any that is at least what is
/// needed is.
pub proof fn law_space(free: u64, needed: u64)
    ensures
        space_enough(Some(free), needed) <==> needed <= free,
        !space_enough(None, needed),
{
}

/// A backup starts only on a paired device that encrypts its backups, with enough
/// space; memory does not stand in its way.
pub proof fn law_backup_needs_all(r: Report)
    ensures
        r.allows() <==> !(!r.pairing_valid || !r.encryption_enabled || !r.free_space_ok),
{
}

/// A restore starts only on a paired device without Find My, on an iOS that is new
/// enough, with enough space.
pub proof fn law_restore_needs_all(r: RestoreReport)
    ensures
        r.allows() <==> !(!r.pairing_valid || !r.find_my_disabled || !r.target_ios_ok
            || !r.enough_target_space),
{
}

/// A device whose version is not known is never new enough; one whose version is
/// that of the backup always is.
pub proof fn law_version_ok(d: DeviceInfo, backup_ios_version: Seq<char>)
    ensures
        !version_ok(None, backup_ios_version),
        version_ok(Some(d), d.ios_version@),
        version_ok(Some(d), backup_ios_version) <==> at_least(
            version(d.ios_version@),
            version(backup_ios_version),
        ),
{
    law_version_reflexive(version(d.ios_version@));
}

/// Space is measured at the first place that exists, going up from the path.
pub proof fn law_measured_at_the_first_that_exists(dir: Seq<char>, levels: nat, exists: Seq<bool>)
    requires
        levels < exists.len(),
        exists[levels as int],
        forall|i: int| 0 <= i < levels ==> !exists[i],
        above(dir, levels) is Some,
        forall|k: nat|
            0 < k <= levels ==> components((#[trigger] above(dir, k))->0) != components(
                "/Volumes"@,
            ),
    ensures
        measured_at(dir, exists) == above(dir, levels),
    decreases levels,
{
    if levels > 0 {
        assert(!exists[0]);
        assert(above(dir, 1) == match parent(dir) {
            Some(p) => above(p, 0),
            None => None,
        });
        let p = parent(dir)->0;
        let rest = exists.skip(1);
        assert forall|i: int| 0 <= i < levels - 1 implies !rest[i] by {
            assert(!exists[i + 1]);
        }
        assert forall|k: nat| 0 < k <= levels - 1 implies components(
            (#[trigger] above(p, k))->0,
        ) != components("/Volumes"@) by {
            assert(above(dir, k + 1) == above(p, k));
        }
        assert(components(above(dir, 1)->0) != components("/Volumes"@));
        law_measured_at_the_first_that_exists(p, (levels - 1) as nat, rest);
    }
}

} // verus!
