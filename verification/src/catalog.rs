//! The catalog: the devices seen, the runs made, the snapshots taken, the
//! destinations known and the archives written there.
use vstd::prelude::*;

use crate::error::{CradleError, ErrorView};
use crate::paths::{join, joined, opt_text};
use crate::rows::{
    kept, kept_contains, kept_is_filtered, law_newest_first_lists_all, lemma_listed, newest,
    newest_first, newest_order, places, views, views_push, views_update,
};
use crate::text::{chars_of, same_text};

verus! {

broadcast use {views_push, views_update};

// --- kinds and states ------------------------------------------------------------------

/// What a run does.
#[derive(Debug, Clone, Copy, PartialEq, Eq, Structural)]
pub enum RunKind {
    Backup,
    Restore,
}

impl RunKind {
    /// The word for this kind.
    pub open spec fn word(self) -> Seq<char> {
        match self {
            RunKind::Backup => "backup"@,
            RunKind::Restore => "restore"@,
        }
    }

    /// The word for this kind.
    pub fn as_str(self) -> (s: &'static str)
        ensures
            s@ == self.word(),
    {
        match self {
            RunKind::Backup => "backup",
            RunKind::Restore => "restore",
        }
    }
}

/// How a run stands.
#[derive(Debug, Clone, Copy, PartialEq, Eq, Structural)]
pub enum RunStatus {
    Running,
    Succeeded,
    Failed,
}

impl RunStatus {
    /// The word for this status.
    pub open spec fn word(self) -> Seq<char> {
        match self {
            RunStatus::Running => "running"@,
            RunStatus::Succeeded => "succeeded"@,
            RunStatus::Failed => "failed"@,
        }
    }

    /// The word for this status.
    pub fn as_str(self) -> (s: &'static str)
        ensures
            s@ == self.word(),
    {
        match self {
            RunStatus::Running => "running",
            RunStatus::Succeeded => "succeeded",
            RunStatus::Failed => "failed",
        }
    }
}

/// How an archive stands.
#[derive(Debug, Clone, Copy, PartialEq, Eq, Structural)]
pub enum ArchiveState {
    Pending,
    Succeeded,
    Failed,
}

impl ArchiveState {
    /// The word for this state.
    pub open spec fn word(self) -> Seq<char> {
        match self {
            ArchiveState::Pending => "pending"@,
            ArchiveState::Succeeded => "succeeded"@,
            ArchiveState::Failed => "failed"@,
        }
    }

    /// The word for this state.
    pub fn as_str(self) -> (s: &'static str)
        ensures
            s@ == self.word(),
    {
        match self {
            ArchiveState::Pending => "pending",
            ArchiveState::Succeeded => "succeeded",
            ArchiveState::Failed => "failed",
        }
    }
}

/// The words for a run and for a state tell them apart.
pub proof fn law_words_tell_apart(a: RunStatus, b: RunStatus, x: ArchiveState, y: ArchiveState)
    ensures
        a.word() == b.word() <==> a == b,
        x.word() == y.word() <==> x == y,
{
    reveal_strlit("running");
    reveal_strlit("succeeded");
    reveal_strlit("failed");
    reveal_strlit("pending");
    assert("running"@.len() == 7 && "succeeded"@.len() == 9 && "failed"@.len() == 6
        && "pending"@.len() == 7);
}

// --- records ------------------------------------------------------------------------------

/// A device.
#[derive(Debug, Clone)]
pub struct DeviceRecord {
    pub udid: String,
    pub name: String,
    pub product_type: String,
    pub ios_version: String,
    pub encrypted: bool,
}

/// A device, and when it was seen last.
#[derive(Debug, Clone)]
pub struct DeviceRow {
    pub record: DeviceRecord,
    pub last_seen: i64,
}

/// A run.
#[derive(Debug, Clone)]
pub struct RunRecord {
    pub id: i64,
    pub udid: String,
    pub kind: String,
    pub started_at: i64,
    pub ended_at: Option<i64>,
    pub status: String,
    pub bytes: Option<i64>,
    pub files: Option<i64>,
    pub error: Option<String>,
}

/// A snapshot of a device.
#[derive(Debug, Clone)]
pub struct SnapshotRecord {
    pub id: i64,
    pub udid: String,
    pub run_id: i64,
    pub taken_at: i64,
    pub size: i64,
    pub ios_version: String,
    pub verified_at: Option<i64>,
}

/// A place that snapshots are archived to.
#[derive(Debug, Clone)]
pub struct DestinationRecord {
    pub id: i64,
    pub name: String,
    pub kind: String,
    pub uri: String,
    pub credential_ref: String,
    pub retention_json: Option<String>,
}

/// A snapshot's archive at a destination.
#[derive(Debug, Clone)]
pub struct ArchiveRecord {
    pub id: i64,
    pub snapshot_id: i64,
    pub destination_id: i64,
    pub restic_id: Option<String>,
    pub state: String,
    pub created_at: i64,
    pub verified_at: Option<i64>,
    pub error: Option<String>,
}

/// A [`DeviceRow`] with its texts as sequences of characters.
pub struct DeviceView {
    pub udid: Seq<char>,
    pub name: Seq<char>,
    pub product_type: Seq<char>,
    pub ios_version: Seq<char>,
    pub encrypted: bool,
    pub last_seen: i64,
}

/// A [`RunRecord`] with its texts as sequences of characters.
pub struct RunView {
    pub id: i64,
    pub udid: Seq<char>,
    pub kind: Seq<char>,
    pub started_at: i64,
    pub ended_at: Option<i64>,
    pub status: Seq<char>,
    pub bytes: Option<i64>,
    pub files: Option<i64>,
    pub error: Option<Seq<char>>,
}

/// A [`SnapshotRecord`] with its texts as sequences of characters.
pub struct SnapshotView {
    pub id: i64,
    pub udid: Seq<char>,
    pub run_id: i64,
    pub taken_at: i64,
    pub size: i64,
    pub ios_version: Seq<char>,
    pub verified_at: Option<i64>,
}

/// A [`DestinationRecord`] with its texts as sequences of characters.
pub struct DestinationView {
    pub id: i64,
    pub name: Seq<char>,
    pub kind: Seq<char>,
    pub uri: Seq<char>,
    pub credential_ref: Seq<char>,
    pub retention_json: Option<Seq<char>>,
}

/// An [`ArchiveRecord`] with its texts as sequences of characters.
pub struct ArchiveView {
    pub id: i64,
    pub snapshot_id: i64,
    pub destination_id: i64,
    pub restic_id: Option<Seq<char>>,
    pub state: Seq<char>,
    pub created_at: i64,
    pub verified_at: Option<i64>,
    pub error: Option<Seq<char>>,
}

/// The characters of a text that may be missing.
pub open spec fn maybe(s: Option<String>) -> Option<Seq<char>> {
    match s {
        Some(t) => Some(t@),
        None => None,
    }
}

/// A device that was seen at `seen`.
pub open spec fn device_seen(d: DeviceRecord, seen: i64) -> DeviceView {
    DeviceView {
        udid: d.udid@,
        name: d.name@,
        product_type: d.product_type@,
        ios_version: d.ios_version@,
        encrypted: d.encrypted,
        last_seen: seen,
    }
}

impl View for DeviceRow {
    type V = DeviceView;

    open spec fn view(&self) -> DeviceView {
        device_seen(self.record, self.last_seen)
    }
}

impl View for RunRecord {
    type V = RunView;

    open spec fn view(&self) -> RunView {
        RunView {
            id: self.id,
            udid: self.udid@,
            kind: self.kind@,
            started_at: self.started_at,
            ended_at: self.ended_at,
            status: self.status@,
            bytes: self.bytes,
            files: self.files,
            error: maybe(self.error),
        }
    }
}

impl View for SnapshotRecord {
    type V = SnapshotView;

    open spec fn view(&self) -> SnapshotView {
        SnapshotView {
            id: self.id,
            udid: self.udid@,
            run_id: self.run_id,
            taken_at: self.taken_at,
            size: self.size,
            ios_version: self.ios_version@,
            verified_at: self.verified_at,
        }
    }
}

impl View for DestinationRecord {
    type V = DestinationView;

    open spec fn view(&self) -> DestinationView {
        DestinationView {
            id: self.id,
            name: self.name@,
            kind: self.kind@,
            uri: self.uri@,
            credential_ref: self.credential_ref@,
            retention_json: maybe(self.retention_json),
        }
    }
}

impl View for ArchiveRecord {
    type V = ArchiveView;

    open spec fn view(&self) -> ArchiveView {
        ArchiveView {
            id: self.id,
            snapshot_id: self.snapshot_id,
            destination_id: self.destination_id,
            restic_id: maybe(self.restic_id),
            state: self.state@,
            created_at: self.created_at,
            verified_at: self.verified_at,
            error: maybe(self.error),
        }
    }
}

/// A copy of a text that may be missing.
fn copy_maybe(s: &Option<String>) -> (r: Option<String>)
    ensures
        maybe(r) == maybe(*s),
{
    match s {
        Some(t) => Some(t.clone()),
        None => None,
    }
}

/// The text of a slice that may be missing.
fn own_maybe(s: Option<&str>) -> (r: Option<String>)
    ensures
        maybe(r) == opt_text(s),
{
    match s {
        Some(t) => Some(t.to_owned()),
        None => None,
    }
}

impl DeviceRecord {
    /// A copy of this record.
    pub fn copy(&self) -> (r: DeviceRecord)
        ensures
            device_seen(r, 0) == device_seen(*self, 0),
    {
        DeviceRecord {
            udid: self.udid.clone(),
            name: self.name.clone(),
            product_type: self.product_type.clone(),
            ios_version: self.ios_version.clone(),
            encrypted: self.encrypted,
        }
    }
}

impl DeviceRow {
    /// A copy of this row.
    pub fn copy(&self) -> (r: DeviceRow)
        ensures
            r@ == self@,
    {
        DeviceRow { record: self.record.copy(), last_seen: self.last_seen }
    }
}

impl RunRecord {
    /// A copy of this record.
    pub fn copy(&self) -> (r: RunRecord)
        ensures
            r@ == self@,
    {
        RunRecord {
            id: self.id,
            udid: self.udid.clone(),
            kind: self.kind.clone(),
            started_at: self.started_at,
            ended_at: self.ended_at,
            status: self.status.clone(),
            bytes: self.bytes,
            files: self.files,
            error: copy_maybe(&self.error),
        }
    }
}

impl SnapshotRecord {
    /// A copy of this record.
    pub fn copy(&self) -> (r: SnapshotRecord)
        ensures
            r@ == self@,
    {
        SnapshotRecord {
            id: self.id,
            udid: self.udid.clone(),
            run_id: self.run_id,
            taken_at: self.taken_at,
            size: self.size,
            ios_version: self.ios_version.clone(),
            verified_at: self.verified_at,
        }
    }
}

impl DestinationRecord {
    /// A copy of this record.
    pub fn copy(&self) -> (r: DestinationRecord)
        ensures
            r@ == self@,
    {
        DestinationRecord {
            id: self.id,
            name: self.name.clone(),
            kind: self.kind.clone(),
            uri: self.uri.clone(),
            credential_ref: self.credential_ref.clone(),
            retention_json: copy_maybe(&self.retention_json),
        }
    }
}

impl ArchiveRecord {
    /// A copy of this record.
    pub fn copy(&self) -> (r: ArchiveRecord)
        ensures
            r@ == self@,
    {
        ArchiveRecord {
            id: self.id,
            snapshot_id: self.snapshot_id,
            destination_id: self.destination_id,
            restic_id: copy_maybe(&self.restic_id),
            state: self.state.clone(),
            created_at: self.created_at,
            verified_at: self.verified_at,
            error: copy_maybe(&self.error),
        }
    }
}

// --- destinations in order ----------------------------------------------------------------

/// Whether `a` comes in front of `b` in the order of their characters.
pub open spec fn text_less(a: Seq<char>, b: Seq<char>) -> bool
    decreases a.len(),
{
    if b.len() == 0 {
        false
    } else if a.len() == 0 {
        true
    } else if a[0] != b[0] {
        a[0] < b[0]
    } else {
        text_less(a.skip(1), b.skip(1))
    }
}

/// Whether `a` comes in front of `b` in the order of their characters.
fn is_less(a: &str, b: &str) -> (r: bool)
    ensures
        r == text_less(a@, b@),
{
    let v = chars_of(a);
    let w = chars_of(b);
    let mut i: usize = 0;
    assert(v@.skip(0) =~= v@);
    assert(w@.skip(0) =~= w@);
    loop
        invariant
            i <= v@.len(),
            i <= w@.len(),
            v@ == a@,
            w@ == b@,
            text_less(a@, b@) == text_less(v@.skip(i as int), w@.skip(i as int)),
        decreases v@.len() - i,
    {
        if i == w.len() {
            return false;
        }
        if i == v.len() {
            return true;
        }
        proof {
            assert(v@.skip(i as int)[0] == v@[i as int]);
            assert(w@.skip(i as int)[0] == w@[i as int]);
            assert(v@.skip(i as int).skip(1) =~= v@.skip(i + 1));
            assert(w@.skip(i as int).skip(1) =~= w@.skip(i + 1));
        }
        if v[i] != w[i] {
            return v[i] < w[i];
        }
        i = i + 1;
    }
}

/// Of two different texts one comes in front of the other, and only one.
pub proof fn text_less_total(a: Seq<char>, b: Seq<char>)
    ensures
        a == b || text_less(a, b) || text_less(b, a),
        !(text_less(a, b) && text_less(b, a)),
        !text_less(a, a),
    decreases a.len(),
{
    if a.len() > 0 && b.len() > 0 && a[0] == b[0] {
        text_less_total(a.skip(1), b.skip(1));
        if a.skip(1) == b.skip(1) {
            assert(a =~= seq![a[0]] + a.skip(1));
            assert(b =~= seq![b[0]] + b.skip(1));
        }
    }
    if a.len() == 0 && b.len() == 0 {
        assert(a =~= b);
    }
    if a.len() > 0 {
        text_less_total(a.skip(1), a.skip(1));
    }
}

/// What comes in front of something comes in front of what follows that.
pub proof fn text_less_transitive(a: Seq<char>, b: Seq<char>, c: Seq<char>)
    requires
        text_less(a, b),
        text_less(b, c),
    ensures
        text_less(a, c),
    decreases a.len(),
{
    if a.len() > 0 && b.len() > 0 && c.len() > 0 && a[0] == b[0] && b[0] == c[0] {
        text_less_transitive(a.skip(1), b.skip(1), c.skip(1));
    }
}

/// Where a name goes among names in order: in front of the first that does not
/// come in front of it.
pub open spec fn name_place(sorted: Seq<DestinationView>, name: Seq<char>) -> nat
    decreases sorted.len(),
{
    if sorted.len() == 0 || !text_less(sorted[0].name, name) {
        0
    } else {
        1 + name_place(sorted.skip(1), name)
    }
}

/// Destinations in the order of their names.
pub open spec fn by_name(rows: Seq<DestinationView>) -> Seq<DestinationView>
    decreases rows.len(),
{
    if rows.len() == 0 {
        seq![]
    } else {
        let rest = by_name(rows.drop_last());
        rest.insert(name_place(rest, rows.last().name) as int, rows.last())
    }
}

/// The destination with this name.
pub open spec fn named(rows: Seq<DestinationView>, name: Seq<char>) -> Option<DestinationView>
    decreases rows.len(),
{
    if rows.len() == 0 {
        None
    } else if rows[0].name == name {
        Some(rows[0])
    } else {
        named(rows.skip(1), name)
    }
}

/// There is a destination with a name just where one is found, and it has that
/// name.
pub proof fn named_facts(rows: Seq<DestinationView>, name: Seq<char>)
    ensures
        named(rows, name) is Some <==> has_name(rows, name),
        named(rows, name) matches Some(d) ==> d.name == name && rows.contains(d),
    decreases rows.len(),
{
    if rows.len() > 0 && rows[0].name != name {
        named_facts(rows.skip(1), name);
        if has_name(rows, name) {
            let i = choose|i: int| 0 <= i < rows.len() && (#[trigger] rows[i]).name == name;
            assert(rows.skip(1)[i - 1] == rows[i]);
        }
        if has_name(rows.skip(1), name) {
            let rest = rows.skip(1);
            let i = choose|i: int| 0 <= i < rest.len() && (#[trigger] rest[i]).name == name;
            assert(rows[i + 1] == rest[i]);
        }
        if let Some(d) = named(rows, name) {
            let rest = rows.skip(1);
            let i = choose|i: int| 0 <= i < rest.len() && rest[i] == d;
            assert(rows[i + 1] == d);
        }
    } else if rows.len() > 0 {
        assert(rows.contains(rows[0]));
    }
}

/// Where a name goes: behind all that come in front of it.
proof fn name_place_facts(sorted: Seq<DestinationView>, name: Seq<char>)
    ensures
        name_place(sorted, name) <= sorted.len(),
        forall|k: int|
            0 <= k < name_place(sorted, name) ==> text_less((#[trigger] sorted[k]).name, name),
        name_place(sorted, name) < sorted.len() ==> !text_less(
            sorted[name_place(sorted, name) as int].name,
            name,
        ),
    decreases sorted.len(),
{
    if sorted.len() > 0 && text_less(sorted[0].name, name) {
        name_place_facts(sorted.skip(1), name);
        assert forall|k: int| 0 <= k < name_place(sorted, name) implies text_less(
            (#[trigger] sorted[k]).name,
            name,
        ) by {
            if k > 0 {
                assert(sorted.skip(1)[k - 1] == sorted[k]);
            }
        }
    }
}

/// Destinations whose names differ are listed in the order of their names,
/// each once.
pub proof fn law_by_name(rows: Seq<DestinationView>)
    requires
        forall|i: int, j: int|
            0 <= i < j < rows.len() ==> (#[trigger] rows[i]).name != (#[trigger] rows[j]).name,
    ensures
        by_name(rows).len() == rows.len(),
        forall|k: int, l: int|
            0 <= k < l < rows.len() ==> text_less(
                (#[trigger] by_name(rows)[k]).name,
                (#[trigger] by_name(rows)[l]).name,
            ),
        forall|x: DestinationView| #[trigger] by_name(rows).contains(x) <==> rows.contains(x),
    decreases rows.len(),
{
    if rows.len() > 0 {
        let before = rows.drop_last();
        let last = rows.last();
        assert forall|i: int, j: int| 0 <= i < j < before.len() implies (#[trigger] before[i]).name
            != (#[trigger] before[j]).name by {
            assert(rows[i].name != rows[j].name);
        }
        law_by_name(before);
        let rest = by_name(before);
        let at = name_place(rest, last.name) as int;
        name_place_facts(rest, last.name);
        let all = by_name(rows);
        assert(all == rest.insert(at, last));
        assert forall|k: int| 0 <= k < rest.len() implies (#[trigger] rest[k]).name != last.name by {
            assert(rest.contains(rest[k]));
            assert(before.contains(rest[k]));
            let i = choose|i: int| 0 <= i < before.len() && before[i] == rest[k];
            assert(rows[i] == rest[k]);
            assert(rows[i].name != rows[rows.len() - 1].name);
        }
        assert forall|k: int, l: int| 0 <= k < l < rows.len() implies text_less(
            (#[trigger] all[k]).name,
            (#[trigger] all[l]).name,
        ) by {
            if l < at {
                assert(text_less(rest[k].name, rest[l].name));
            } else if l == at {
            } else if k < at {
                assert(text_less(rest[k].name, rest[l - 1].name));
            } else if k == at {
                text_less_total(rest[at].name, last.name);
                assert(rest[at].name != last.name);
                if l - 1 > at {
                    assert(text_less(rest[at].name, rest[l - 1].name));
                    text_less_transitive(last.name, rest[at].name, rest[l - 1].name);
                }
            } else {
                assert(text_less(rest[k - 1].name, rest[l - 1].name));
            }
        }
        assert forall|x: DestinationView| #[trigger] all.contains(x) <==> rows.contains(x) by {
            if all.contains(x) {
                let k = choose|k: int| 0 <= k < all.len() && all[k] == x;
                if k == at {
                    assert(rows[rows.len() - 1] == x);
                } else {
                    let m = if k < at {
                        k
                    } else {
                        k - 1
                    };
                    assert(rest[m] == x);
                    assert(rest.contains(x));
                    assert(before.contains(x));
                    let i = choose|i: int| 0 <= i < before.len() && before[i] == x;
                    assert(rows[i] == x);
                }
            }
            if rows.contains(x) {
                let i = choose|i: int| 0 <= i < rows.len() && rows[i] == x;
                if i == rows.len() - 1 {
                    assert(all[at] == x);
                } else {
                    assert(before[i] == x);
                    assert(before.contains(x));
                    assert(rest.contains(x));
                    let k = choose|k: int| 0 <= k < rest.len() && rest[k] == x;
                    if k < at {
                        assert(all[k] == x);
                    } else {
                        assert(all[k + 1] == x);
                    }
                }
            }
        }
    }
}

// --- the tables ---------------------------------------------------------------------------

/// What a [`Catalog`] holds.
pub struct CatalogView {
    pub devices: Seq<DeviceView>,
    pub runs: Seq<RunView>,
    pub snapshots: Seq<SnapshotView>,
    pub destinations: Seq<DestinationView>,
    pub archives: Seq<ArchiveView>,
    /// The largest number that a run was ever given.
    pub last_run: i64,
    /// The largest number that a snapshot was ever given.
    pub last_snapshot: i64,
    /// The largest number that a destination was ever given.
    pub last_destination: i64,
    /// The largest number that an archive was ever given.
    pub last_archive: i64,
}

/// Whether a device is known.
pub open spec fn has_device(rows: Seq<DeviceView>, udid: Seq<char>) -> bool {
    exists|i: int| 0 <= i < rows.len() && (#[trigger] rows[i]).udid == udid
}

/// Whether there is a run with this number.
pub open spec fn has_run(rows: Seq<RunView>, id: i64) -> bool {
    exists|i: int| 0 <= i < rows.len() && (#[trigger] rows[i]).id == id
}

/// Whether there is a snapshot with this number.
pub open spec fn has_snapshot(rows: Seq<SnapshotView>, id: i64) -> bool {
    exists|i: int| 0 <= i < rows.len() && (#[trigger] rows[i]).id == id
}

/// Whether there is a destination with this number.
pub open spec fn has_destination(rows: Seq<DestinationView>, id: i64) -> bool {
    exists|i: int| 0 <= i < rows.len() && (#[trigger] rows[i]).id == id
}

/// Whether there is a destination with this name.
pub open spec fn has_name(rows: Seq<DestinationView>, name: Seq<char>) -> bool {
    exists|i: int| 0 <= i < rows.len() && (#[trigger] rows[i]).name == name
}

impl CatalogView {
    /// Whether no device is there twice.
    pub open spec fn devices_ok(self) -> bool {
        forall|i: int, j: int|
            0 <= i < j < self.devices.len() ==> (#[trigger] self.devices[i]).udid != (
            #[trigger] self.devices[j]).udid
    }

    /// Whether the numbers of the runs rise, up to the largest given.
    pub open spec fn runs_ok(self) -> bool {
        &&& forall|i: int, j: int|
            0 <= i < j < self.runs.len() ==> (#[trigger] self.runs[i]).id < (
            #[trigger] self.runs[j]).id
        &&& forall|i: int|
            0 <= i < self.runs.len() ==> (#[trigger] self.runs[i]).id <= self.last_run
    }

    /// Whether the numbers of the snapshots rise, up to the largest given.
    pub open spec fn snapshots_ok(self) -> bool {
        &&& forall|i: int, j: int|
            0 <= i < j < self.snapshots.len() ==> (#[trigger] self.snapshots[i]).id < (
            #[trigger] self.snapshots[j]).id
        &&& forall|i: int|
            0 <= i < self.snapshots.len() ==> (#[trigger] self.snapshots[i]).id
                <= self.last_snapshot
    }

    /// Whether the numbers of the destinations rise, up to the largest given,
    /// and no name is there twice.
    pub open spec fn destinations_ok(self) -> bool {
        &&& forall|i: int, j: int|
            0 <= i < j < self.destinations.len() ==> (#[trigger] self.destinations[i]).id < (
            #[trigger] self.destinations[j]).id && self.destinations[i].name
                != self.destinations[j].name
        &&& forall|i: int|
            0 <= i < self.destinations.len() ==> (#[trigger] self.destinations[i]).id
                <= self.last_destination
    }

    /// Whether the numbers of the archives rise, up to the largest given.
    pub open spec fn archives_ok(self) -> bool {
        &&& forall|i: int, j: int|
            0 <= i < j < self.archives.len() ==> (#[trigger] self.archives[i]).id < (
            #[trigger] self.archives[j]).id
        &&& forall|i: int|
            0 <= i < self.archives.len() ==> (#[trigger] self.archives[i]).id
                <= self.last_archive
    }

    /// Whether the tables are as they must be.
    pub open spec fn wf(self) -> bool {
        &&& self.devices_ok()
        &&& self.runs_ok()
        &&& self.snapshots_ok()
        &&& self.destinations_ok()
        &&& self.archives_ok()
    }

    /// Whether each run is of a known device, each snapshot of a known device and
    /// a known run, and each archive of a known snapshot at a known destination.
    pub open spec fn linked(self) -> bool {
        &&& forall|i: int|
            0 <= i < self.runs.len() ==> has_device(self.devices, (#[trigger] self.runs[i]).udid)
        &&& forall|i: int|
            0 <= i < self.snapshots.len() ==> has_device(
                self.devices,
                (#[trigger] self.snapshots[i]).udid,
            ) && has_run(self.runs, self.snapshots[i].run_id)
        &&& forall|i: int|
            0 <= i < self.archives.len() ==> has_snapshot(
                self.snapshots,
                (#[trigger] self.archives[i]).snapshot_id,
            ) && has_destination(self.destinations, self.archives[i].destination_id)
    }

    /// Nothing known.
    pub open spec fn empty() -> CatalogView {
        CatalogView {
            devices: seq![],
            runs: seq![],
            snapshots: seq![],
            destinations: seq![],
            archives: seq![],
            last_run: 0,
            last_snapshot: 0,
            last_destination: 0,
            last_archive: 0,
        }
    }

    // --- what each change does ---

    /// With a device seen: a known one is brought up to date.
    pub open spec fn seen(self, d: DeviceView) -> CatalogView {
        let at = device_place(self.devices, d.udid) as int;
        CatalogView {
            devices: if at < self.devices.len() {
                self.devices.update(at, d)
            } else {
                self.devices.push(d)
            },
            ..self
        }
    }

    /// With a run started.
    pub open spec fn started(self, udid: Seq<char>, kind: RunKind, now: i64) -> CatalogView {
        let id = (self.last_run + 1) as i64;
        CatalogView {
            runs: self.runs.push(
                RunView {
                    id,
                    udid,
                    kind: kind.word(),
                    started_at: now,
                    ended_at: None,
                    status: RunStatus::Running.word(),
                    bytes: None,
                    files: None,
                    error: None,
                },
            ),
            last_run: id,
            ..self
        }
    }

    /// With each run changed by `f`.
    pub open spec fn with_runs(self, f: spec_fn(RunView) -> RunView) -> CatalogView {
        CatalogView { runs: self.runs.map_values(f), ..self }
    }

    /// With a run ended.
    pub open spec fn run_ended(
        self,
        id: i64,
        now: i64,
        status: RunStatus,
        bytes: u64,
        files: u64,
        error: Option<Seq<char>>,
    ) -> CatalogView {
        self.with_runs(
            |x: RunView|
                if x.id == id {
                    ended(x, now, status, bytes, files, error)
                } else {
                    x
                },
        )
    }

    /// With the runs of a device that were left running closed.
    pub open spec fn runs_abandoned(self, udid: Seq<char>, now: i64) -> CatalogView {
        self.with_runs(|x: RunView| abandoned_run(x, udid, now))
    }

    /// With an archive ended.
    pub open spec fn archive_closed(
        self,
        id: i64,
        state: ArchiveState,
        restic_id: Option<Seq<char>>,
        error: Option<Seq<char>>,
        now: i64,
    ) -> CatalogView {
        self.with_archives(
            |x: ArchiveView|
                if x.id == id {
                    archive_ended(x, state, restic_id, error, now)
                } else {
                    x
                },
        )
    }

    /// With the archives of a snapshot that were left pending closed.
    pub open spec fn archives_abandoned(self, snapshot_id: i64) -> CatalogView {
        self.with_archives(|x: ArchiveView| abandoned_archive(x, snapshot_id))
    }

    /// With a snapshot marked verified.
    pub open spec fn marked_verified(self, snapshot_id: i64, now: i64) -> CatalogView {
        CatalogView {
            snapshots: self.snapshots.map_values(|x: SnapshotView| marked(x, snapshot_id, now)),
            ..self
        }
    }

    /// With what a destination keeps set.
    pub open spec fn with_retention(self, destination_id: i64, json: Seq<char>) -> CatalogView {
        CatalogView {
            destinations: self.destinations.map_values(
                |x: DestinationView| retaining(x, destination_id, json),
            ),
            ..self
        }
    }

    /// With each archive changed by `f`.
    pub open spec fn with_archives(self, f: spec_fn(ArchiveView) -> ArchiveView) -> CatalogView {
        CatalogView { archives: self.archives.map_values(f), ..self }
    }

    /// With a snapshot taken.
    pub open spec fn taken(self, s: SnapshotView) -> CatalogView {
        CatalogView { snapshots: self.snapshots.push(s), last_snapshot: s.id, ..self }
    }

    /// The snapshot that is taken next.
    pub open spec fn next_snapshot(
        self,
        udid: Seq<char>,
        run_id: i64,
        size: u64,
        ios_version: Seq<char>,
        verified: bool,
        now: i64,
    ) -> SnapshotView {
        SnapshotView {
            id: (self.last_snapshot + 1) as i64,
            udid,
            run_id,
            taken_at: now,
            size: size as i64,
            ios_version,
            verified_at: if verified {
                Some(now)
            } else {
                None
            },
        }
    }

    /// With a destination added.
    pub open spec fn with_destination(
        self,
        name: Seq<char>,
        kind: Seq<char>,
        uri: Seq<char>,
        credential_ref: Seq<char>,
    ) -> CatalogView {
        let id = (self.last_destination + 1) as i64;
        CatalogView {
            destinations: self.destinations.push(
                DestinationView { id, name, kind, uri, credential_ref, retention_json: None },
            ),
            last_destination: id,
            ..self
        }
    }

    /// With an archive started.
    pub open spec fn archiving(self, snapshot_id: i64, destination_id: i64, now: i64) -> CatalogView {
        let id = (self.last_archive + 1) as i64;
        CatalogView {
            archives: self.archives.push(
                ArchiveView {
                    id,
                    snapshot_id,
                    destination_id,
                    restic_id: None,
                    state: ArchiveState::Pending.word(),
                    created_at: now,
                    verified_at: None,
                    error: None,
                },
            ),
            last_archive: id,
            ..self
        }
    }

    /// Without a destination and its archives.
    pub open spec fn without_destination(self, id: i64) -> CatalogView {
        CatalogView {
            archives: kept(self.archives, |a: ArchiveView| a.destination_id != id),
            destinations: kept(self.destinations, |d: DestinationView| d.id != id),
            ..self
        }
    }
}

/// Whether a snapshot can be recorded: its device and its run are known, and
/// there is a number left for it.
pub open spec fn snapshot_fits(c: CatalogView, udid: Seq<char>, run_id: i64) -> bool {
    has_device(c.devices, udid) && has_run(c.runs, run_id) && c.last_snapshot < i64::MAX
}

/// What is said when a snapshot cannot be recorded.
pub open spec fn snapshot_refusal(c: CatalogView, udid: Seq<char>, run_id: i64) -> ErrorView {
    if c.last_snapshot == i64::MAX {
        table_full()
    } else {
        reference_missing()
    }
}

/// Whether `r` is the first of `rows`, and nothing where there is none.
pub open spec fn first_is<T: View>(rows: Seq<T::V>, r: Option<T>) -> bool {
    match r {
        Some(x) => rows.len() > 0 && x@ == rows[0],
        None => rows.len() == 0,
    }
}

/// The place of the device, or the number of devices.
pub open spec fn device_place(rows: Seq<DeviceView>, udid: Seq<char>) -> nat
    decreases rows.len(),
{
    if rows.len() == 0 || rows[0].udid == udid {
        0
    } else {
        1 + device_place(rows.skip(1), udid)
    }
}

/// A run that has ended.
pub open spec fn ended(
    r: RunView,
    now: i64,
    status: RunStatus,
    bytes: u64,
    files: u64,
    error: Option<Seq<char>>,
) -> RunView {
    RunView {
        ended_at: Some(now),
        status: status.word(),
        bytes: Some(bytes as i64),
        files: Some(files as i64),
        error,
        ..r
    }
}

/// What is said of a run whose process is gone.
pub const ABANDONED_RUN: &'static str = "abandoned: process exited without finishing this run";

/// What is said of an archive whose process is gone.
pub const ABANDONED_ARCHIVE: &'static str = "abandoned: process exited without finishing this archive";

/// Whether a run of a device is still running.
pub open spec fn is_running(r: RunView, udid: Seq<char>) -> bool {
    r.udid == udid && r.status == RunStatus::Running.word()
}

/// A run, closed where it is a running one of the device.
pub open spec fn abandoned_run(r: RunView, udid: Seq<char>, now: i64) -> RunView {
    if is_running(r, udid) {
        RunView {
            ended_at: Some(now),
            status: RunStatus::Failed.word(),
            error: Some(ABANDONED_RUN@),
            ..r
        }
    } else {
        r
    }
}

/// Whether an archive of a snapshot is still pending.
pub open spec fn is_pending(a: ArchiveView, snapshot_id: i64) -> bool {
    a.snapshot_id == snapshot_id && a.state == ArchiveState::Pending.word()
}

/// An archive, closed where it is a pending one of the snapshot.
pub open spec fn abandoned_archive(a: ArchiveView, snapshot_id: i64) -> ArchiveView {
    if is_pending(a, snapshot_id) {
        ArchiveView { state: ArchiveState::Failed.word(), error: Some(ABANDONED_ARCHIVE@), ..a }
    } else {
        a
    }
}

/// An archive that has ended.
pub open spec fn archive_ended(
    a: ArchiveView,
    state: ArchiveState,
    restic_id: Option<Seq<char>>,
    error: Option<Seq<char>>,
    now: i64,
) -> ArchiveView {
    ArchiveView {
        state: state.word(),
        restic_id,
        verified_at: if state == ArchiveState::Succeeded {
            Some(now)
        } else {
            None
        },
        error,
        ..a
    }
}

/// A snapshot, verified at `now` where it is `id` and was not verified before.
pub open spec fn marked(s: SnapshotView, id: i64, now: i64) -> SnapshotView {
    if s.id == id && s.verified_at is None {
        SnapshotView { verified_at: Some(now), ..s }
    } else {
        s
    }
}

/// A destination, with this retention where it is `id`.
pub open spec fn retaining(d: DestinationView, id: i64, retention: Seq<char>) -> DestinationView {
    if d.id == id {
        DestinationView { retention_json: Some(retention), ..d }
    } else {
        d
    }
}

/// What is said when a row refers to one that is not there.
pub open spec fn reference_missing() -> ErrorView {
    ErrorView::Catalog("FOREIGN KEY constraint failed"@)
}

/// What is said when no number is left to give.
pub open spec fn table_full() -> ErrorView {
    ErrorView::Catalog("database or disk is full"@)
}

/// What is said when a name is taken.
pub open spec fn name_taken() -> ErrorView {
    ErrorView::Catalog("UNIQUE constraint failed: destinations.name"@)
}

// --- why the tables stay as they must be ------------------------------------------------------

/// The place of a device is where it is, if it is anywhere.
proof fn device_place_facts(rows: Seq<DeviceView>, udid: Seq<char>)
    ensures
        device_place(rows, udid) <= rows.len(),
        device_place(rows, udid) < rows.len() ==> rows[device_place(rows, udid) as int].udid
            == udid,
        device_place(rows, udid) == rows.len() ==> !has_device(rows, udid),
    decreases rows.len(),
{
    if rows.len() > 0 && rows[0].udid != udid {
        device_place_facts(rows.skip(1), udid);
        if has_device(rows, udid) {
            let i = choose|i: int| 0 <= i < rows.len() && (#[trigger] rows[i]).udid == udid;
            assert(rows.skip(1)[i - 1].udid == udid);
        }
    }
}

/// Seeing a device keeps the tables as they must be.
proof fn seen_wf(c: CatalogView, d: DeviceView)
    requires
        c.wf(),
    ensures
        c.seen(d).wf(),
        has_device(c.seen(d).devices, d.udid),
        forall|u: Seq<char>| #[trigger]
            has_device(c.devices, u) ==> has_device(c.seen(d).devices, u),
{
    device_place_facts(c.devices, d.udid);
    let at = device_place(c.devices, d.udid) as int;
    let next = c.seen(d);
    assert(next.devices[at].udid == d.udid);
    assert forall|u: Seq<char>| #[trigger] has_device(c.devices, u) implies has_device(
        next.devices,
        u,
    ) by {
        let i = choose|i: int| 0 <= i < c.devices.len() && (#[trigger] c.devices[i]).udid == u;
        assert(next.devices[i].udid == u);
    }
    assert forall|i: int, j: int| 0 <= i < j < next.devices.len() implies (
    #[trigger] next.devices[i]).udid != (#[trigger] next.devices[j]).udid by {
        if at == c.devices.len() && j == at {
            assert(c.devices[i].udid != d.udid);
        } else if i != at && j != at {
            assert(c.devices[i].udid != c.devices[j].udid);
        } else {
            assert(c.devices[i].udid != c.devices[j].udid);
        }
    }
}

/// A device that was seen is known, and no number changes.
pub proof fn seen_is_known(c: CatalogView, d: DeviceView)
    ensures
        has_device(c.seen(d).devices, d.udid),
        c.seen(d).last_run == c.last_run,
{
    device_place_facts(c.devices, d.udid);
    let at = device_place(c.devices, d.udid) as int;
    assert(c.seen(d).devices[at].udid == d.udid);
}

/// Adding a run with the next number keeps the tables as they must be.
proof fn started_wf(c: CatalogView, udid: Seq<char>, kind: RunKind, now: i64)
    requires
        c.wf(),
        c.last_run < i64::MAX,
    ensures
        c.started(udid, kind, now).wf(),
        has_run(c.started(udid, kind, now).runs, (c.last_run + 1) as i64),
{
    let next = c.started(udid, kind, now);
    assert(next.runs[c.runs.len() as int].id == next.last_run);
    assert forall|i: int, j: int| 0 <= i < j < next.runs.len() implies (#[trigger] next.runs[i]).id
        < (#[trigger] next.runs[j]).id by {
        assert(c.runs[i].id <= c.last_run);
    }
    assert forall|i: int| 0 <= i < next.runs.len() implies (#[trigger] next.runs[i]).id
        <= next.last_run by {
        if i < c.runs.len() {
            assert(c.runs[i].id <= c.last_run);
        }
    }
}

/// Changing runs without renumbering or reassigning them keeps the tables as
/// they must be.
proof fn with_runs_wf(c: CatalogView, f: spec_fn(RunView) -> RunView)
    requires
        c.wf(),
        forall|r: RunView| (#[trigger] f(r)).id == r.id && f(r).udid == r.udid,
    ensures
        c.with_runs(f).wf(),
        forall|id: i64| #[trigger] has_run(c.with_runs(f).runs, id) == has_run(c.runs, id),
{
    let next = c.with_runs(f);
    assert forall|i: int| 0 <= i < c.runs.len() implies (#[trigger] next.runs[i]).id == c.runs[i].id
        && next.runs[i].udid == c.runs[i].udid by {}
    assert forall|id: i64| #[trigger] has_run(next.runs, id) == has_run(c.runs, id) by {
        if has_run(c.runs, id) {
            let k = choose|k: int| 0 <= k < c.runs.len() && (#[trigger] c.runs[k]).id == id;
            assert(next.runs[k].id == id);
        }
        if has_run(next.runs, id) {
            let k = choose|k: int| 0 <= k < next.runs.len() && (#[trigger] next.runs[k]).id == id;
            assert(c.runs[k].id == id);
        }
    }
    assert forall|i: int, j: int| 0 <= i < j < next.runs.len() implies (#[trigger] next.runs[i]).id
        < (#[trigger] next.runs[j]).id by {
        assert(c.runs[i].id < c.runs[j].id);
    }
    assert forall|i: int| 0 <= i < next.runs.len() implies (#[trigger] next.runs[i]).id
        <= next.last_run by {
        assert(c.runs[i].id <= c.last_run);
    }
}

/// Changing archives without renumbering or reassigning them keeps the tables
/// as they must be.
proof fn with_archives_wf(c: CatalogView, f: spec_fn(ArchiveView) -> ArchiveView)
    requires
        c.wf(),
        forall|a: ArchiveView|
            (#[trigger] f(a)).id == a.id && f(a).snapshot_id == a.snapshot_id
                && f(a).destination_id == a.destination_id,
    ensures
        c.with_archives(f).wf(),
{
    let next = c.with_archives(f);
    assert forall|i: int| 0 <= i < c.archives.len() implies (#[trigger] next.archives[i]).id
        == c.archives[i].id && next.archives[i].snapshot_id == c.archives[i].snapshot_id
        && next.archives[i].destination_id == c.archives[i].destination_id by {}
    assert forall|i: int, j: int| 0 <= i < j < next.archives.len() implies (
    #[trigger] next.archives[i]).id < (#[trigger] next.archives[j]).id by {
        assert(c.archives[i].id < c.archives[j].id);
    }
    assert forall|i: int| 0 <= i < next.archives.len() implies (#[trigger] next.archives[i]).id
        <= next.last_archive by {
        assert(c.archives[i].id <= c.last_archive);
    }
}

/// Adding a snapshot with the next number keeps the tables as they must be.
proof fn taken_wf(c: CatalogView, s: SnapshotView)
    requires
        c.wf(),
        c.last_snapshot < i64::MAX,
        s.id == c.last_snapshot + 1,
    ensures
        c.taken(s).wf(),
{
    let next = c.taken(s);
    assert forall|i: int, j: int| 0 <= i < j < next.snapshots.len() implies (
    #[trigger] next.snapshots[i]).id < (#[trigger] next.snapshots[j]).id by {
        assert(c.snapshots[i].id <= c.last_snapshot);
    }
    assert forall|i: int| 0 <= i < next.snapshots.len() implies (#[trigger] next.snapshots[i]).id
        <= next.last_snapshot by {
        if i < c.snapshots.len() {
            assert(c.snapshots[i].id <= c.last_snapshot);
        }
    }
}

/// Marking a snapshot verified keeps the tables as they must be.
proof fn marked_wf(c: CatalogView, id: i64, now: i64)
    requires
        c.wf(),
    ensures
        (CatalogView {
            snapshots: c.snapshots.map_values(|x: SnapshotView| marked(x, id, now)),
            ..c
        }).wf(),
{
    let f = |x: SnapshotView| marked(x, id, now);
    let next = CatalogView { snapshots: c.snapshots.map_values(f), ..c };
    assert forall|i: int| 0 <= i < c.snapshots.len() implies (#[trigger] next.snapshots[i]).id
        == c.snapshots[i].id && next.snapshots[i].udid == c.snapshots[i].udid
        && next.snapshots[i].run_id == c.snapshots[i].run_id by {}
    assert forall|i: int, j: int| 0 <= i < j < next.snapshots.len() implies (
    #[trigger] next.snapshots[i]).id < (#[trigger] next.snapshots[j]).id by {
        assert(c.snapshots[i].id < c.snapshots[j].id);
    }
    assert forall|i: int| 0 <= i < next.snapshots.len() implies (#[trigger] next.snapshots[i]).id
        <= next.last_snapshot by {
        assert(c.snapshots[i].id <= c.last_snapshot);
    }
}

/// Adding a destination under a free name keeps the tables as they must be.
proof fn with_destination_wf(
    c: CatalogView,
    name: Seq<char>,
    kind: Seq<char>,
    uri: Seq<char>,
    credential_ref: Seq<char>,
)
    requires
        c.wf(),
        !has_name(c.destinations, name),
        c.last_destination < i64::MAX,
    ensures
        c.with_destination(name, kind, uri, credential_ref).wf(),
{
    let next = c.with_destination(name, kind, uri, credential_ref);
    assert forall|i: int, j: int| 0 <= i < j < next.destinations.len() implies (
    #[trigger] next.destinations[i]).id < (#[trigger] next.destinations[j]).id
        && next.destinations[i].name != next.destinations[j].name by {
        assert(c.destinations[i].id <= c.last_destination);
        if j == c.destinations.len() {
            assert(c.destinations[i].name != name);
        } else {
            assert(c.destinations[i].id < c.destinations[j].id);
        }
    }
    assert forall|i: int| 0 <= i < next.destinations.len() implies (
    #[trigger] next.destinations[i]).id <= next.last_destination by {
        if i < c.destinations.len() {
            assert(c.destinations[i].id <= c.last_destination);
        }
    }
}

/// Setting a destination's retention keeps the tables as they must be.
proof fn retaining_wf(c: CatalogView, id: i64, retention: Seq<char>)
    requires
        c.wf(),
    ensures
        (CatalogView {
            destinations: c.destinations.map_values(
                |x: DestinationView| retaining(x, id, retention),
            ),
            ..c
        }).wf(),
{
    let f = |x: DestinationView| retaining(x, id, retention);
    let next = CatalogView { destinations: c.destinations.map_values(f), ..c };
    assert forall|i: int| 0 <= i < c.destinations.len() implies (#[trigger] next.destinations[i]).id
        == c.destinations[i].id && next.destinations[i].name == c.destinations[i].name by {}
    assert forall|i: int, j: int| 0 <= i < j < next.destinations.len() implies (
    #[trigger] next.destinations[i]).id < (#[trigger] next.destinations[j]).id
        && next.destinations[i].name != next.destinations[j].name by {
        assert(c.destinations[i].id < c.destinations[j].id);
    }
    assert forall|i: int| 0 <= i < next.destinations.len() implies (
    #[trigger] next.destinations[i]).id <= next.last_destination by {
        assert(c.destinations[i].id <= c.last_destination);
    }
}

/// Adding an archive with the next number keeps the tables as they must be.
proof fn archiving_wf(c: CatalogView, snapshot_id: i64, destination_id: i64, now: i64)
    requires
        c.wf(),
        c.last_archive < i64::MAX,
    ensures
        c.archiving(snapshot_id, destination_id, now).wf(),
{
    let next = c.archiving(snapshot_id, destination_id, now);
    assert forall|i: int, j: int| 0 <= i < j < next.archives.len() implies (
    #[trigger] next.archives[i]).id < (#[trigger] next.archives[j]).id by {
        assert(c.archives[i].id <= c.last_archive);
    }
    assert forall|i: int| 0 <= i < next.archives.len() implies (#[trigger] next.archives[i]).id
        <= next.last_archive by {
        if i < c.archives.len() {
            assert(c.archives[i].id <= c.last_archive);
        }
    }
}

/// Where each kept row comes from.
proof fn kept_from<T>(rows: Seq<T>, p: spec_fn(T) -> bool) -> (from: Seq<int>)
    ensures
        from.len() == kept(rows, p).len(),
        forall|k: int|
            0 <= k < from.len() ==> 0 <= #[trigger] from[k] < rows.len() && kept(rows, p)[k]
                == rows[from[k]] && p(rows[from[k]]),
        forall|k: int, l: int|
            0 <= k < l < from.len() ==> (#[trigger] from[k]) < (#[trigger] from[l]),
    decreases rows.len(),
{
    if rows.len() == 0 {
        seq![]
    } else {
        let rest = kept_from(rows.drop_last(), p);
        if p(rows.last()) {
            rest.push(rows.len() - 1)
        } else {
            rest
        }
    }
}

/// Removing a destination with its archives keeps the tables as they must be.
proof fn without_destination_wf(c: CatalogView, id: i64)
    requires
        c.wf(),
    ensures
        c.without_destination(id).wf(),
{
    let next = c.without_destination(id);
    let keeps_a = |a: ArchiveView| a.destination_id != id;
    let keeps_d = |d: DestinationView| d.id != id;
    let fa = kept_from(c.archives, keeps_a);
    let fd = kept_from(c.destinations, keeps_d);
    assert forall|i: int, j: int| 0 <= i < j < next.destinations.len() implies (
    #[trigger] next.destinations[i]).id < (#[trigger] next.destinations[j]).id
        && next.destinations[i].name != next.destinations[j].name by {
        assert(fd[i] < fd[j]);
        assert(c.destinations[fd[i]].id < c.destinations[fd[j]].id);
    }
    assert forall|i: int| 0 <= i < next.destinations.len() implies (
    #[trigger] next.destinations[i]).id <= next.last_destination by {
        assert(c.destinations[fd[i]].id <= c.last_destination);
    }
    assert forall|i: int, j: int| 0 <= i < j < next.archives.len() implies (
    #[trigger] next.archives[i]).id < (#[trigger] next.archives[j]).id by {
        assert(fa[i] < fa[j]);
        assert(c.archives[fa[i]].id < c.archives[fa[j]].id);
    }
    assert forall|i: int| 0 <= i < next.archives.len() implies (#[trigger] next.archives[i]).id
        <= next.last_archive by {
        assert(c.archives[fa[i]].id <= c.last_archive);
    }
}

// --- reading and changing rows --------------------------------------------------------------

/// The numbers of several rows.
fn run_numbers(rows: &Vec<RunRecord>) -> (ids: Vec<i64>)
    ensures
        ids@.len() == rows@.len(),
        forall|i: int| 0 <= i < rows@.len() ==> #[trigger] ids@[i] == views(rows@)[i].id,
{
    let mut ids: Vec<i64> = Vec::new();
    let mut i: usize = 0;
    while i < rows.len()
        invariant
            i <= rows@.len(),
            ids@.len() == i,
            forall|k: int| 0 <= k < i ==> #[trigger] ids@[k] == views(rows@)[k].id,
        decreases rows@.len() - i,
    {
        ids.push(rows[i].id);
        i = i + 1;
    }
    ids
}

/// The numbers of several rows.
fn snapshot_numbers(rows: &Vec<SnapshotRecord>) -> (ids: Vec<i64>)
    ensures
        ids@.len() == rows@.len(),
        forall|i: int| 0 <= i < rows@.len() ==> #[trigger] ids@[i] == views(rows@)[i].id,
{
    let mut ids: Vec<i64> = Vec::new();
    let mut i: usize = 0;
    while i < rows.len()
        invariant
            i <= rows@.len(),
            ids@.len() == i,
            forall|k: int| 0 <= k < i ==> #[trigger] ids@[k] == views(rows@)[k].id,
        decreases rows@.len() - i,
    {
        ids.push(rows[i].id);
        i = i + 1;
    }
    ids
}

/// The numbers of several rows.
fn destination_numbers(rows: &Vec<DestinationRecord>) -> (ids: Vec<i64>)
    ensures
        ids@.len() == rows@.len(),
        forall|i: int| 0 <= i < rows@.len() ==> #[trigger] ids@[i] == views(rows@)[i].id,
{
    let mut ids: Vec<i64> = Vec::new();
    let mut i: usize = 0;
    while i < rows.len()
        invariant
            i <= rows@.len(),
            ids@.len() == i,
            forall|k: int| 0 <= k < i ==> #[trigger] ids@[k] == views(rows@)[k].id,
        decreases rows@.len() - i,
    {
        ids.push(rows[i].id);
        i = i + 1;
    }
    ids
}

/// The numbers of several rows.
fn archive_numbers(rows: &Vec<ArchiveRecord>) -> (ids: Vec<i64>)
    ensures
        ids@.len() == rows@.len(),
        forall|i: int| 0 <= i < rows@.len() ==> #[trigger] ids@[i] == views(rows@)[i].id,
{
    let mut ids: Vec<i64> = Vec::new();
    let mut i: usize = 0;
    while i < rows.len()
        invariant
            i <= rows@.len(),
            ids@.len() == i,
            forall|k: int| 0 <= k < i ==> #[trigger] ids@[k] == views(rows@)[k].id,
        decreases rows@.len() - i,
    {
        ids.push(rows[i].id);
        i = i + 1;
    }
    ids
}

/// Whether a device is known.
fn knows_device(rows: &Vec<DeviceRow>, udid: &str) -> (r: bool)
    ensures
        r == has_device(views(rows@), udid@),
{
    let mut i: usize = 0;
    while i < rows.len()
        invariant
            i <= rows@.len(),
            forall|k: int| 0 <= k < i ==> (#[trigger] views(rows@)[k]).udid != udid@,
        decreases rows@.len() - i,
    {
        assert(views(rows@)[i as int] == rows@[i as int]@);
        if same_text(rows[i].record.udid.as_str(), udid) {
            return true;
        }
        i = i + 1;
    }
    false
}

/// Whether there is a run with this number.
fn knows_run(rows: &Vec<RunRecord>, id: i64) -> (r: bool)
    ensures
        r == has_run(views(rows@), id),
{
    let mut i: usize = 0;
    while i < rows.len()
        invariant
            i <= rows@.len(),
            forall|k: int| 0 <= k < i ==> (#[trigger] views(rows@)[k]).id != id,
        decreases rows@.len() - i,
    {
        assert(views(rows@)[i as int] == rows@[i as int]@);
        if rows[i].id == id {
            return true;
        }
        i = i + 1;
    }
    false
}

/// Whether there is a snapshot with this number.
fn knows_snapshot(rows: &Vec<SnapshotRecord>, id: i64) -> (r: bool)
    ensures
        r == has_snapshot(views(rows@), id),
{
    let mut i: usize = 0;
    while i < rows.len()
        invariant
            i <= rows@.len(),
            forall|k: int| 0 <= k < i ==> (#[trigger] views(rows@)[k]).id != id,
        decreases rows@.len() - i,
    {
        assert(views(rows@)[i as int] == rows@[i as int]@);
        if rows[i].id == id {
            return true;
        }
        i = i + 1;
    }
    false
}

/// Whether there is a destination with this number.
fn knows_destination(rows: &Vec<DestinationRecord>, id: i64) -> (r: bool)
    ensures
        r == has_destination(views(rows@), id),
{
    let mut i: usize = 0;
    while i < rows.len()
        invariant
            i <= rows@.len(),
            forall|k: int| 0 <= k < i ==> (#[trigger] views(rows@)[k]).id != id,
        decreases rows@.len() - i,
    {
        assert(views(rows@)[i as int] == rows@[i as int]@);
        if rows[i].id == id {
            return true;
        }
        i = i + 1;
    }
    false
}

/// Whether there is a destination with this name.
fn knows_name(rows: &Vec<DestinationRecord>, name: &str) -> (r: bool)
    ensures
        r == has_name(views(rows@), name@),
{
    let mut i: usize = 0;
    while i < rows.len()
        invariant
            i <= rows@.len(),
            forall|k: int| 0 <= k < i ==> (#[trigger] views(rows@)[k]).name != name@,
        decreases rows@.len() - i,
    {
        assert(views(rows@)[i as int] == rows@[i as int]@);
        if same_text(rows[i].name.as_str(), name) {
            return true;
        }
        i = i + 1;
    }
    false
}

/// Ends the run with this number.
fn end_runs(rows: &mut Vec<RunRecord>, id: i64, now: i64, status: RunStatus, bytes: u64, files: u64, error: Option<&str>)
    ensures
        views(final(rows)@) == views(old(rows)@).map_values(
            |x: RunView| if x.id == id { ended(x, now, status, bytes, files, opt_text(error)) } else { x },
        ),
{
    let ghost f = |x: RunView| if x.id == id { ended(x, now, status, bytes, files, opt_text(error)) } else { x };
    let ghost before = views(rows@);
    let mut i: usize = 0;
    while i < rows.len()
        invariant
            i <= rows@.len(),
            rows@.len() == before.len(),
            f == (|x: RunView| if x.id == id { ended(x, now, status, bytes, files, opt_text(error)) } else { x }),
            forall|k: int| 0 <= k < i ==> #[trigger] views(rows@)[k] == f(before[k]),
            forall|k: int| i <= k < before.len() ==> #[trigger] views(rows@)[k] == before[k],
        decreases rows@.len() - i,
    {
        assert(views(rows@)[i as int] == rows@[i as int]@);
        if rows[i].id == id {
            let mut row = rows[i].copy();
            row.ended_at = Some(now);
            row.status = status.as_str().to_owned();
            row.bytes = Some(bytes as i64);
            row.files = Some(files as i64);
            row.error = own_maybe(error);
            rows.set(i, row);
        }
        i = i + 1;
    }
    assert(views(rows@) =~= before.map_values(f));
}

/// Marks the snapshot with this number verified.
fn mark_snapshots(rows: &mut Vec<SnapshotRecord>, id: i64, now: i64)
    ensures
        views(final(rows)@) == views(old(rows)@).map_values(
            |x: SnapshotView| marked(x, id, now),
        ),
{
    let ghost f = |x: SnapshotView| marked(x, id, now);
    let ghost before = views(rows@);
    let mut i: usize = 0;
    while i < rows.len()
        invariant
            i <= rows@.len(),
            rows@.len() == before.len(),
            f == (|x: SnapshotView| marked(x, id, now)),
            forall|k: int| 0 <= k < i ==> #[trigger] views(rows@)[k] == f(before[k]),
            forall|k: int| i <= k < before.len() ==> #[trigger] views(rows@)[k] == before[k],
        decreases rows@.len() - i,
    {
        assert(views(rows@)[i as int] == rows@[i as int]@);
        if rows[i].id == id && rows[i].verified_at.is_none() {
            let mut row = rows[i].copy();
            row.verified_at = Some(now);
            rows.set(i, row);
        }
        i = i + 1;
    }
    assert(views(rows@) =~= before.map_values(f));
}

/// Sets the retention of the destination with this number.
fn retain_at(rows: &mut Vec<DestinationRecord>, id: i64, retention_json: &str)
    ensures
        views(final(rows)@) == views(old(rows)@).map_values(
            |x: DestinationView| retaining(x, id, retention_json@),
        ),
{
    let ghost f = |x: DestinationView| retaining(x, id, retention_json@);
    let ghost before = views(rows@);
    let mut i: usize = 0;
    while i < rows.len()
        invariant
            i <= rows@.len(),
            rows@.len() == before.len(),
            f == (|x: DestinationView| retaining(x, id, retention_json@)),
            forall|k: int| 0 <= k < i ==> #[trigger] views(rows@)[k] == f(before[k]),
            forall|k: int| i <= k < before.len() ==> #[trigger] views(rows@)[k] == before[k],
        decreases rows@.len() - i,
    {
        assert(views(rows@)[i as int] == rows@[i as int]@);
        if rows[i].id == id {
            let mut row = rows[i].copy();
            row.retention_json = Some(retention_json.to_owned());
            rows.set(i, row);
        }
        i = i + 1;
    }
    assert(views(rows@) =~= before.map_values(f));
}

/// Ends the archive with this number.
fn end_archives(rows: &mut Vec<ArchiveRecord>, id: i64, state: ArchiveState, restic_id: Option<&str>, error: Option<&str>, now: i64)
    ensures
        views(final(rows)@) == views(old(rows)@).map_values(
            |x: ArchiveView| if x.id == id { archive_ended(x, state, opt_text(restic_id), opt_text(error), now) } else { x },
        ),
{
    let ghost f = |x: ArchiveView| if x.id == id { archive_ended(x, state, opt_text(restic_id), opt_text(error), now) } else { x };
    let ghost before = views(rows@);
    let mut i: usize = 0;
    while i < rows.len()
        invariant
            i <= rows@.len(),
            rows@.len() == before.len(),
            f == (|x: ArchiveView| if x.id == id { archive_ended(x, state, opt_text(restic_id), opt_text(error), now) } else { x }),
            forall|k: int| 0 <= k < i ==> #[trigger] views(rows@)[k] == f(before[k]),
            forall|k: int| i <= k < before.len() ==> #[trigger] views(rows@)[k] == before[k],
        decreases rows@.len() - i,
    {
        assert(views(rows@)[i as int] == rows@[i as int]@);
        if rows[i].id == id {
            let mut row = rows[i].copy();
            row.state = state.as_str().to_owned();
            row.restic_id = own_maybe(restic_id);
            row.verified_at = if state == ArchiveState::Succeeded {
                Some(now)
            } else {
                None
            };
            row.error = own_maybe(error);
            rows.set(i, row);
        }
        i = i + 1;
    }
    assert(views(rows@) =~= before.map_values(f));
}

/// Closes the running runs of a device, and counts them.
fn abandon_runs(rows: &mut Vec<RunRecord>, udid: &str, now: i64) -> (n: u64)
    ensures
        views(final(rows)@) == views(old(rows)@).map_values(
            |x: RunView| abandoned_run(x, udid@, now),
        ),
        n == kept(views(old(rows)@), |x: RunView| is_running(x, udid@)).len(),
{
    let ghost f = |x: RunView| abandoned_run(x, udid@, now);
    let ghost p = |x: RunView| is_running(x, udid@);
    let ghost before = views(rows@);
    let mut n: u64 = 0;
    let mut i: usize = 0;
    assert(kept(before.take(0), p) =~= seq![]);
    while i < rows.len()
        invariant
            i <= rows@.len(),
            rows@.len() == before.len(),
            f == (|x: RunView| abandoned_run(x, udid@, now)),
            p == (|x: RunView| is_running(x, udid@)),
            n <= i,
            n == kept(before.take(i as int), p).len(),
            forall|k: int| 0 <= k < i ==> #[trigger] views(rows@)[k] == f(before[k]),
            forall|k: int| i <= k < before.len() ==> #[trigger] views(rows@)[k] == before[k],
        decreases rows@.len() - i,
    {
        proof {
            assert(views(rows@)[i as int] == rows@[i as int]@);
            assert(before.take(i + 1).drop_last() =~= before.take(i as int));
            assert(before.take(i + 1).last() == before[i as int]);
        }
        if same_text(rows[i].udid.as_str(), udid) && same_text(
            rows[i].status.as_str(),
            RunStatus::Running.as_str(),
        ) {
            let mut row = rows[i].copy();
            row.ended_at = Some(now);
            row.status = RunStatus::Failed.as_str().to_owned();
            row.error = Some(ABANDONED_RUN.to_owned());
            rows.set(i, row);
            n = n + 1;
        }
        i = i + 1;
    }
    assert(before.take(i as int) =~= before);
    assert(views(rows@) =~= before.map_values(f));
    n
}

/// Closes the pending archives of a snapshot, and counts them.
fn abandon_archives(rows: &mut Vec<ArchiveRecord>, snapshot_id: i64) -> (n: u64)
    ensures
        views(final(rows)@) == views(old(rows)@).map_values(
            |x: ArchiveView| abandoned_archive(x, snapshot_id),
        ),
        n == kept(views(old(rows)@), |x: ArchiveView| is_pending(x, snapshot_id)).len(),
{
    let ghost f = |x: ArchiveView| abandoned_archive(x, snapshot_id);
    let ghost p = |x: ArchiveView| is_pending(x, snapshot_id);
    let ghost before = views(rows@);
    let mut n: u64 = 0;
    let mut i: usize = 0;
    assert(kept(before.take(0), p) =~= seq![]);
    while i < rows.len()
        invariant
            i <= rows@.len(),
            rows@.len() == before.len(),
            f == (|x: ArchiveView| abandoned_archive(x, snapshot_id)),
            p == (|x: ArchiveView| is_pending(x, snapshot_id)),
            n <= i,
            n == kept(before.take(i as int), p).len(),
            forall|k: int| 0 <= k < i ==> #[trigger] views(rows@)[k] == f(before[k]),
            forall|k: int| i <= k < before.len() ==> #[trigger] views(rows@)[k] == before[k],
        decreases rows@.len() - i,
    {
        proof {
            assert(views(rows@)[i as int] == rows@[i as int]@);
            assert(before.take(i + 1).drop_last() =~= before.take(i as int));
            assert(before.take(i + 1).last() == before[i as int]);
        }
        if rows[i].snapshot_id == snapshot_id && same_text(
            rows[i].state.as_str(),
            ArchiveState::Pending.as_str(),
        ) {
            let mut row = rows[i].copy();
            row.state = ArchiveState::Failed.as_str().to_owned();
            row.error = Some(ABANDONED_ARCHIVE.to_owned());
            rows.set(i, row);
            n = n + 1;
        }
        i = i + 1;
    }
    assert(before.take(i as int) =~= before);
    assert(views(rows@) =~= before.map_values(f));
    n
}

/// The destinations but the one with this number.
fn other_destinations(rows: &Vec<DestinationRecord>, id: i64) -> (out: Vec<DestinationRecord>)
    ensures
        views(out@) == kept(views(rows@), |x: DestinationView| x.id != id),
{
    let ghost p = |x: DestinationView| x.id != id;
    let ghost all = views(rows@);
    let mut out: Vec<DestinationRecord> = Vec::new();
    let mut i: usize = 0;
    assert(views(out@) =~= kept(all.take(0), p));
    while i < rows.len()
        invariant
            i <= rows@.len(),
            all == views(rows@),
            p == (|x: DestinationView| x.id != id),
            views(out@) == kept(all.take(i as int), p),
        decreases rows@.len() - i,
    {
        proof {
            assert(all.take(i + 1).drop_last() =~= all.take(i as int));
            assert(all.take(i + 1).last() == rows@[i as int]@);
        }
        if rows[i].id != id {
            out.push(rows[i].copy());
        }
        i = i + 1;
    }
    assert(all.take(i as int) =~= all);
    out
}

/// The archives that are not at the destination with this number.
fn archives_elsewhere(rows: &Vec<ArchiveRecord>, id: i64) -> (out: Vec<ArchiveRecord>)
    ensures
        views(out@) == kept(views(rows@), |x: ArchiveView| x.destination_id != id),
{
    let ghost p = |x: ArchiveView| x.destination_id != id;
    let ghost all = views(rows@);
    let mut out: Vec<ArchiveRecord> = Vec::new();
    let mut i: usize = 0;
    assert(views(out@) =~= kept(all.take(0), p));
    while i < rows.len()
        invariant
            i <= rows@.len(),
            all == views(rows@),
            p == (|x: ArchiveView| x.destination_id != id),
            views(out@) == kept(all.take(i as int), p),
        decreases rows@.len() - i,
    {
        proof {
            assert(all.take(i + 1).drop_last() =~= all.take(i as int));
            assert(all.take(i + 1).last() == rows@[i as int]@);
        }
        if rows[i].destination_id != id {
            out.push(rows[i].copy());
        }
        i = i + 1;
    }
    assert(all.take(i as int) =~= all);
    out
}

/// The runs of a device, the latest first.
pub open spec fn runs_listed(rows: Seq<RunView>, udid: Seq<char>) -> Seq<RunView> {
    let mine = kept(rows, |x: RunView| x.udid == udid);
    newest_first(mine, mine.map_values(|x: RunView| x.started_at))
}

/// The runs of a device, the latest first.
fn runs_of(rows: &Vec<RunRecord>, udid: &str) -> (out: Vec<RunRecord>)
    ensures
        views(out@) == runs_listed(views(rows@), udid@),
{
    let ghost p = |x: RunView| x.udid == udid@;
    let ghost time = |x: RunView| x.started_at;
    let ghost all = views(rows@);
    let mut mine: Vec<RunRecord> = Vec::new();
    let mut times: Vec<i64> = Vec::new();
    let mut i: usize = 0;
    assert(views(mine@) =~= kept(all.take(0), p));
    assert(times@ =~= kept(all.take(0), p).map_values(time));
    while i < rows.len()
        invariant
            i <= rows@.len(),
            all == views(rows@),
            p == (|x: RunView| x.udid == udid@),
            time == (|x: RunView| x.started_at),
            views(mine@) == kept(all.take(i as int), p),
            times@ == views(mine@).map_values(time),
        decreases rows@.len() - i,
    {
        proof {
            assert(all.take(i + 1).drop_last() =~= all.take(i as int));
            assert(all.take(i + 1).last() == rows@[i as int]@);
        }
        if same_text(rows[i].udid.as_str(), udid) {
            let row = rows[i].copy();
            times.push(row.started_at);
            mine.push(row);
            assert(times@ =~= views(mine@).map_values(time));
        }
        i = i + 1;
    }
    assert(all.take(i as int) =~= all);
    let order = newest_order(&times);
    assert(views(mine@).len() == mine@.len());
    let ghost at = |i: int| views(mine@)[i];
    let mut out: Vec<RunRecord> = Vec::new();
    let mut k: usize = 0;
    while k < order.len()
        invariant
            k <= order@.len(),
            order@.len() == mine@.len(),
            at == (|i: int| views(mine@)[i]),
            forall|j: int| 0 <= j < order@.len() ==> (#[trigger] order@[j]) < mine@.len(),
            out@.len() == k,
            forall|j: int| 0 <= j < k ==> #[trigger] views(out@)[j] == at(order@[j] as int),
        decreases order@.len() - k,
    {
        let n = order[k];
        out.push(mine[n].copy());
        k = k + 1;
    }
    assert(views(out@) =~= places(order@).map_values(at));
    out
}

/// The snapshots of a device, the latest first.
pub open spec fn snapshots_listed(rows: Seq<SnapshotView>, udid: Seq<char>) -> Seq<SnapshotView> {
    let mine = kept(rows, |x: SnapshotView| x.udid == udid);
    newest_first(mine, mine.map_values(|x: SnapshotView| x.taken_at))
}

/// The snapshots of a device, the latest first.
fn snapshots_of(rows: &Vec<SnapshotRecord>, udid: &str) -> (out: Vec<SnapshotRecord>)
    ensures
        views(out@) == snapshots_listed(views(rows@), udid@),
{
    let ghost p = |x: SnapshotView| x.udid == udid@;
    let ghost time = |x: SnapshotView| x.taken_at;
    let ghost all = views(rows@);
    let mut mine: Vec<SnapshotRecord> = Vec::new();
    let mut times: Vec<i64> = Vec::new();
    let mut i: usize = 0;
    assert(views(mine@) =~= kept(all.take(0), p));
    assert(times@ =~= kept(all.take(0), p).map_values(time));
    while i < rows.len()
        invariant
            i <= rows@.len(),
            all == views(rows@),
            p == (|x: SnapshotView| x.udid == udid@),
            time == (|x: SnapshotView| x.taken_at),
            views(mine@) == kept(all.take(i as int), p),
            times@ == views(mine@).map_values(time),
        decreases rows@.len() - i,
    {
        proof {
            assert(all.take(i + 1).drop_last() =~= all.take(i as int));
            assert(all.take(i + 1).last() == rows@[i as int]@);
        }
        if same_text(rows[i].udid.as_str(), udid) {
            let row = rows[i].copy();
            times.push(row.taken_at);
            mine.push(row);
            assert(times@ =~= views(mine@).map_values(time));
        }
        i = i + 1;
    }
    assert(all.take(i as int) =~= all);
    let order = newest_order(&times);
    assert(views(mine@).len() == mine@.len());
    let ghost at = |i: int| views(mine@)[i];
    let mut out: Vec<SnapshotRecord> = Vec::new();
    let mut k: usize = 0;
    while k < order.len()
        invariant
            k <= order@.len(),
            order@.len() == mine@.len(),
            at == (|i: int| views(mine@)[i]),
            forall|j: int| 0 <= j < order@.len() ==> (#[trigger] order@[j]) < mine@.len(),
            out@.len() == k,
            forall|j: int| 0 <= j < k ==> #[trigger] views(out@)[j] == at(order@[j] as int),
        decreases order@.len() - k,
    {
        let n = order[k];
        out.push(mine[n].copy());
        k = k + 1;
    }
    assert(views(out@) =~= places(order@).map_values(at));
    out
}

/// The verified snapshots of a device, the latest first.
pub open spec fn verified_listed(rows: Seq<SnapshotView>, udid: Seq<char>) -> Seq<SnapshotView> {
    let mine = kept(rows, |x: SnapshotView| x.udid == udid && x.verified_at is Some);
    newest_first(mine, mine.map_values(|x: SnapshotView| x.taken_at))
}

/// The verified snapshots of a device, the latest first.
fn verified_of(rows: &Vec<SnapshotRecord>, udid: &str) -> (out: Vec<SnapshotRecord>)
    ensures
        views(out@) == verified_listed(views(rows@), udid@),
{
    let ghost p = |x: SnapshotView| x.udid == udid@ && x.verified_at is Some;
    let ghost time = |x: SnapshotView| x.taken_at;
    let ghost all = views(rows@);
    let mut mine: Vec<SnapshotRecord> = Vec::new();
    let mut times: Vec<i64> = Vec::new();
    let mut i: usize = 0;
    assert(views(mine@) =~= kept(all.take(0), p));
    assert(times@ =~= kept(all.take(0), p).map_values(time));
    while i < rows.len()
        invariant
            i <= rows@.len(),
            all == views(rows@),
            p == (|x: SnapshotView| x.udid == udid@ && x.verified_at is Some),
            time == (|x: SnapshotView| x.taken_at),
            views(mine@) == kept(all.take(i as int), p),
            times@ == views(mine@).map_values(time),
        decreases rows@.len() - i,
    {
        proof {
            assert(all.take(i + 1).drop_last() =~= all.take(i as int));
            assert(all.take(i + 1).last() == rows@[i as int]@);
        }
        if same_text(rows[i].udid.as_str(), udid) && rows[i].verified_at.is_some() {
            let row = rows[i].copy();
            times.push(row.taken_at);
            mine.push(row);
            assert(times@ =~= views(mine@).map_values(time));
        }
        i = i + 1;
    }
    assert(all.take(i as int) =~= all);
    let order = newest_order(&times);
    assert(views(mine@).len() == mine@.len());
    let ghost at = |i: int| views(mine@)[i];
    let mut out: Vec<SnapshotRecord> = Vec::new();
    let mut k: usize = 0;
    while k < order.len()
        invariant
            k <= order@.len(),
            order@.len() == mine@.len(),
            at == (|i: int| views(mine@)[i]),
            forall|j: int| 0 <= j < order@.len() ==> (#[trigger] order@[j]) < mine@.len(),
            out@.len() == k,
            forall|j: int| 0 <= j < k ==> #[trigger] views(out@)[j] == at(order@[j] as int),
        decreases order@.len() - k,
    {
        let n = order[k];
        out.push(mine[n].copy());
        k = k + 1;
    }
    assert(views(out@) =~= places(order@).map_values(at));
    out
}

/// The archives of a snapshot, the latest first.
pub open spec fn archives_listed(rows: Seq<ArchiveView>, snapshot_id: i64) -> Seq<ArchiveView> {
    let mine = kept(rows, |x: ArchiveView| x.snapshot_id == snapshot_id);
    newest_first(mine, mine.map_values(|x: ArchiveView| x.created_at))
}

/// The archives of a snapshot, the latest first.
fn archives_of(rows: &Vec<ArchiveRecord>, snapshot_id: i64) -> (out: Vec<ArchiveRecord>)
    ensures
        views(out@) == archives_listed(views(rows@), snapshot_id),
{
    let ghost p = |x: ArchiveView| x.snapshot_id == snapshot_id;
    let ghost time = |x: ArchiveView| x.created_at;
    let ghost all = views(rows@);
    let mut mine: Vec<ArchiveRecord> = Vec::new();
    let mut times: Vec<i64> = Vec::new();
    let mut i: usize = 0;
    assert(views(mine@) =~= kept(all.take(0), p));
    assert(times@ =~= kept(all.take(0), p).map_values(time));
    while i < rows.len()
        invariant
            i <= rows@.len(),
            all == views(rows@),
            p == (|x: ArchiveView| x.snapshot_id == snapshot_id),
            time == (|x: ArchiveView| x.created_at),
            views(mine@) == kept(all.take(i as int), p),
            times@ == views(mine@).map_values(time),
        decreases rows@.len() - i,
    {
        proof {
            assert(all.take(i + 1).drop_last() =~= all.take(i as int));
            assert(all.take(i + 1).last() == rows@[i as int]@);
        }
        if rows[i].snapshot_id == snapshot_id {
            let row = rows[i].copy();
            times.push(row.created_at);
            mine.push(row);
            assert(times@ =~= views(mine@).map_values(time));
        }
        i = i + 1;
    }
    assert(all.take(i as int) =~= all);
    let order = newest_order(&times);
    assert(views(mine@).len() == mine@.len());
    let ghost at = |i: int| views(mine@)[i];
    let mut out: Vec<ArchiveRecord> = Vec::new();
    let mut k: usize = 0;
    while k < order.len()
        invariant
            k <= order@.len(),
            order@.len() == mine@.len(),
            at == (|i: int| views(mine@)[i]),
            forall|j: int| 0 <= j < order@.len() ==> (#[trigger] order@[j]) < mine@.len(),
            out@.len() == k,
            forall|j: int| 0 <= j < k ==> #[trigger] views(out@)[j] == at(order@[j] as int),
        decreases order@.len() - k,
    {
        let n = order[k];
        out.push(mine[n].copy());
        k = k + 1;
    }
    assert(views(out@) =~= places(order@).map_values(at));
    out
}

/// Every device, the one seen last first.
pub open spec fn devices_listed(rows: Seq<DeviceView>) -> Seq<DeviceView> {
    let mine = kept(rows, |x: DeviceView| true);
    newest_first(mine, mine.map_values(|x: DeviceView| x.last_seen))
}

/// Every device, the one seen last first.
fn devices_in_order(rows: &Vec<DeviceRow>) -> (out: Vec<DeviceRow>)
    ensures
        views(out@) == devices_listed(views(rows@)),
{
    let ghost p = |x: DeviceView| true;
    let ghost time = |x: DeviceView| x.last_seen;
    let ghost all = views(rows@);
    let mut mine: Vec<DeviceRow> = Vec::new();
    let mut times: Vec<i64> = Vec::new();
    let mut i: usize = 0;
    assert(views(mine@) =~= kept(all.take(0), p));
    assert(times@ =~= kept(all.take(0), p).map_values(time));
    while i < rows.len()
        invariant
            i <= rows@.len(),
            all == views(rows@),
            p == (|x: DeviceView| true),
            time == (|x: DeviceView| x.last_seen),
            views(mine@) == kept(all.take(i as int), p),
            times@ == views(mine@).map_values(time),
        decreases rows@.len() - i,
    {
        proof {
            assert(all.take(i + 1).drop_last() =~= all.take(i as int));
            assert(all.take(i + 1).last() == rows@[i as int]@);
        }
        if true {
            let row = rows[i].copy();
            times.push(row.last_seen);
            mine.push(row);
            assert(times@ =~= views(mine@).map_values(time));
        }
        i = i + 1;
    }
    assert(all.take(i as int) =~= all);
    let order = newest_order(&times);
    assert(views(mine@).len() == mine@.len());
    let ghost at = |i: int| views(mine@)[i];
    let mut out: Vec<DeviceRow> = Vec::new();
    let mut k: usize = 0;
    while k < order.len()
        invariant
            k <= order@.len(),
            order@.len() == mine@.len(),
            at == (|i: int| views(mine@)[i]),
            forall|j: int| 0 <= j < order@.len() ==> (#[trigger] order@[j]) < mine@.len(),
            out@.len() == k,
            forall|j: int| 0 <= j < k ==> #[trigger] views(out@)[j] == at(order@[j] as int),
        decreases order@.len() - k,
    {
        let n = order[k];
        out.push(mine[n].copy());
        k = k + 1;
    }
    assert(views(out@) =~= places(order@).map_values(at));
    out
}


/// Destinations in the order of their names.
fn destinations_in_order(rows: &Vec<DestinationRecord>) -> (out: Vec<DestinationRecord>)
    ensures
        views(out@) == by_name(views(rows@)),
{
    let ghost all = views(rows@);
    let mut out: Vec<DestinationRecord> = Vec::new();
    let mut i: usize = 0;
    assert(views(out@) =~= by_name(all.take(0)));
    while i < rows.len()
        invariant
            i <= rows@.len(),
            all == views(rows@),
            views(out@) == by_name(all.take(i as int)),
        decreases rows@.len() - i,
    {
        let ghost before = views(out@);
        let row = rows[i].copy();
        let mut at: usize = 0;
        assert(before.skip(0) =~= before);
        while at < out.len() && is_less(out[at].name.as_str(), row.name.as_str())
            invariant
                at <= out@.len(),
                before == views(out@),
                name_place(before, row@.name) == at + name_place(
                    before.skip(at as int),
                    row@.name,
                ),
            decreases out@.len() - at,
        {
            assert(before.skip(at as int)[0] == out@[at as int]@);
            assert(before.skip(at as int).skip(1) =~= before.skip(at + 1));
            at = at + 1;
        }
        proof {
            if at < out@.len() {
                assert(before.skip(at as int)[0] == out@[at as int]@);
            }
            assert(all.take(i + 1).drop_last() =~= all.take(i as int));
            assert(all.take(i + 1).last() == rows@[i as int]@);
            assert(views(out@.insert(at as int, row)) =~= before.insert(at as int, row@));
        }
        out.insert(at, row);
        i = i + 1;
    }
    assert(all.take(i as int) =~= all);
    out
}

/// The place of the device, or the number of devices.
fn find_device(rows: &Vec<DeviceRow>, udid: &str) -> (at: usize)
    ensures
        at == device_place(views(rows@), udid@),
        at <= rows@.len(),
{
    let ghost all = views(rows@);
    let mut i: usize = 0;
    assert(all.skip(0) =~= all);
    while i < rows.len()
        invariant
            i <= rows@.len(),
            all == views(rows@),
            device_place(all, udid@) == i + device_place(all.skip(i as int), udid@),
        decreases rows@.len() - i,
    {
        assert(all.skip(i as int)[0] == rows@[i as int]@);
        if same_text(rows[i].record.udid.as_str(), udid) {
            return i;
        }
        assert(all.skip(i as int).skip(1) =~= all.skip(i + 1));
        i = i + 1;
    }
    i
}

/// The greatest of a number and several others.
pub open spec fn greatest(ids: Seq<i64>, last: i64) -> i64
    decreases ids.len(),
{
    if ids.len() == 0 {
        last
    } else {
        let before = greatest(ids.drop_last(), last);
        if ids.last() > before {
            ids.last()
        } else {
            before
        }
    }
}

/// The greatest of a number and several others.
fn find_greatest(ids: &Vec<i64>, last: i64) -> (r: i64)
    ensures
        r == greatest(ids@, last),
{
    let mut r: i64 = last;
    let mut i: usize = 0;
    while i < ids.len()
        invariant
            i <= ids@.len(),
            r == greatest(ids@.take(i as int), last),
        decreases ids@.len() - i,
    {
        proof {
            assert(ids@.take(i + 1).drop_last() =~= ids@.take(i as int));
            assert(ids@.take(i + 1).last() == ids@[i as int]);
        }
        if ids[i] > r {
            r = ids[i];
        }
        i = i + 1;
    }
    assert(ids@.take(i as int) =~= ids@);
    r
}

/// Whether numbers rise and none is more than `last`.
fn rising(ids: &Vec<i64>, last: i64) -> (r: bool)
    ensures
        r == ((forall|i: int, j: int|
            0 <= i < j < ids@.len() ==> (#[trigger] ids@[i]) < (#[trigger] ids@[j])) && (forall|
            i: int,
        |
            0 <= i < ids@.len() ==> (#[trigger] ids@[i]) <= last)),
{
    let mut i: usize = 0;
    while i < ids.len()
        invariant
            i <= ids@.len(),
            forall|k: int, l: int| 0 <= k < l < i ==> (#[trigger] ids@[k]) < (#[trigger] ids@[l]),
            forall|k: int| 0 <= k < i ==> (#[trigger] ids@[k]) <= last,
        decreases ids@.len() - i,
    {
        if ids[i] > last {
            return false;
        }
        if i > 0 && ids[i - 1] >= ids[i] {
            assert(ids@[i - 1] >= ids@[i as int]);
            return false;
        }
        i = i + 1;
    }
    true
}

// --- the catalog --------------------------------------------------------------------------------

/// The largest number that each kind of row was ever given.
#[derive(Debug, Clone, Copy)]
pub struct LastNumbers {
    pub run: i64,
    pub snapshot: i64,
    pub destination: i64,
    pub archive: i64,
}

/// The catalog.
#[derive(Debug)]
pub struct Catalog {
    devices: Vec<DeviceRow>,
    runs: Vec<RunRecord>,
    snapshots: Vec<SnapshotRecord>,
    destinations: Vec<DestinationRecord>,
    archives: Vec<ArchiveRecord>,
    last: LastNumbers,
}

/// What tables hold.
pub open spec fn tables(
    devices: Seq<DeviceRow>,
    runs: Seq<RunRecord>,
    snapshots: Seq<SnapshotRecord>,
    destinations: Seq<DestinationRecord>,
    archives: Seq<ArchiveRecord>,
    last: LastNumbers,
) -> CatalogView {
    CatalogView {
        devices: views(devices),
        runs: views(runs),
        snapshots: views(snapshots),
        destinations: views(destinations),
        archives: views(archives),
        last_run: last.run,
        last_snapshot: last.snapshot,
        last_destination: last.destination,
        last_archive: last.archive,
    }
}

impl CatalogView {
    /// The same tables, with no last number below one that a row has.
    pub open spec fn raised(self) -> CatalogView {
        CatalogView {
            last_run: greatest(self.runs.map_values(|r: RunView| r.id), self.last_run),
            last_snapshot: greatest(
                self.snapshots.map_values(|s: SnapshotView| s.id),
                self.last_snapshot,
            ),
            last_destination: greatest(
                self.destinations.map_values(|d: DestinationView| d.id),
                self.last_destination,
            ),
            last_archive: greatest(
                self.archives.map_values(|a: ArchiveView| a.id),
                self.last_archive,
            ),
            ..self
        }
    }
}

/// The greatest of several numbers is one of them, and none is above it.
proof fn lemma_greatest(ids: Seq<i64>, last: i64)
    ensures
        last <= greatest(ids, last),
        forall|i: int| 0 <= i < ids.len() ==> #[trigger] ids[i] <= greatest(ids, last),
        greatest(ids, last) == last || ids.contains(greatest(ids, last)),
    decreases ids.len(),
{
    if ids.len() > 0 {
        let before = ids.drop_last();
        lemma_greatest(before, last);
        assert forall|i: int| 0 <= i < ids.len() implies #[trigger] ids[i] <= greatest(
            ids,
            last,
        ) by {
            if i < before.len() {
                assert(ids[i] == before[i]);
            }
        }
        if ids.last() > greatest(before, last) {
            assert(ids[ids.len() - 1] == greatest(ids, last));
        } else if greatest(before, last) != last {
            let k = choose|k: int| 0 <= k < before.len() && before[k] == greatest(before, last);
            assert(ids[k] == greatest(ids, last));
        }
    }
}

/// Raising the last numbers of tables keeps their rows, lowers no number, and
/// leaves none below that of a row.
pub proof fn law_no_row_is_above_the_last_number(v: CatalogView)
    ensures
        v.raised().devices == v.devices,
        v.raised().runs == v.runs,
        v.raised().snapshots == v.snapshots,
        v.raised().destinations == v.destinations,
        v.raised().archives == v.archives,
        v.raised().last_run >= v.last_run,
        v.raised().last_snapshot >= v.last_snapshot,
        v.raised().last_destination >= v.last_destination,
        v.raised().last_archive >= v.last_archive,
        forall|i: int|
            0 <= i < v.runs.len() ==> (#[trigger] v.runs[i]).id <= v.raised().last_run,
        forall|i: int|
            0 <= i < v.snapshots.len() ==> (#[trigger] v.snapshots[i]).id
                <= v.raised().last_snapshot,
        forall|i: int|
            0 <= i < v.destinations.len() ==> (#[trigger] v.destinations[i]).id
                <= v.raised().last_destination,
        forall|i: int|
            0 <= i < v.archives.len() ==> (#[trigger] v.archives[i]).id
                <= v.raised().last_archive,
{
    let runs = v.runs.map_values(|r: RunView| r.id);
    let snapshots = v.snapshots.map_values(|s: SnapshotView| s.id);
    let destinations = v.destinations.map_values(|d: DestinationView| d.id);
    let archives = v.archives.map_values(|a: ArchiveView| a.id);
    lemma_greatest(runs, v.last_run);
    lemma_greatest(snapshots, v.last_snapshot);
    lemma_greatest(destinations, v.last_destination);
    lemma_greatest(archives, v.last_archive);
    assert forall|i: int| 0 <= i < v.runs.len() implies (#[trigger] v.runs[i]).id
        <= v.raised().last_run by {
        assert(runs[i] == v.runs[i].id);
    }
    assert forall|i: int| 0 <= i < v.snapshots.len() implies (#[trigger] v.snapshots[i]).id
        <= v.raised().last_snapshot by {
        assert(snapshots[i] == v.snapshots[i].id);
    }
    assert forall|i: int| 0 <= i < v.destinations.len() implies (#[trigger] v.destinations[i]).id
        <= v.raised().last_destination by {
        assert(destinations[i] == v.destinations[i].id);
    }
    assert forall|i: int| 0 <= i < v.archives.len() implies (#[trigger] v.archives[i]).id
        <= v.raised().last_archive by {
        assert(archives[i] == v.archives[i].id);
    }
}

/// Tables whose last numbers no row is above are not changed by raising them.
pub proof fn law_raising_keeps_what_holds(v: CatalogView)
    requires
        v.wf(),
    ensures
        v.raised() == v,
{
    let runs = v.runs.map_values(|r: RunView| r.id);
    let snapshots = v.snapshots.map_values(|s: SnapshotView| s.id);
    let destinations = v.destinations.map_values(|d: DestinationView| d.id);
    let archives = v.archives.map_values(|a: ArchiveView| a.id);
    lemma_greatest(runs, v.last_run);
    lemma_greatest(snapshots, v.last_snapshot);
    lemma_greatest(destinations, v.last_destination);
    lemma_greatest(archives, v.last_archive);
    assert(forall|i: int| 0 <= i < runs.len() ==> #[trigger] runs[i] == v.runs[i].id);
    assert(forall|i: int|
        0 <= i < snapshots.len() ==> #[trigger] snapshots[i] == v.snapshots[i].id);
    assert(forall|i: int|
        0 <= i < destinations.len() ==> #[trigger] destinations[i] == v.destinations[i].id);
    assert(forall|i: int| 0 <= i < archives.len() ==> #[trigger] archives[i] == v.archives[i].id);
}

impl View for Catalog {
    type V = CatalogView;

    closed spec fn view(&self) -> CatalogView {
        tables(
            self.devices@,
            self.runs@,
            self.snapshots@,
            self.destinations@,
            self.archives@,
            self.last,
        )
    }
}

impl Catalog {
    /// A catalog in which nothing is known.
    pub fn new() -> (c: Catalog)
        ensures
            c@ == CatalogView::empty(),
            c@.wf(),
            c@.linked(),
    {
        let c = Catalog {
            devices: Vec::new(),
            runs: Vec::new(),
            snapshots: Vec::new(),
            destinations: Vec::new(),
            archives: Vec::new(),
            last: LastNumbers { run: 0, snapshot: 0, destination: 0, archive: 0 },
        };
        proof {
            assert(views(c.devices@) =~= seq![]);
            assert(views(c.runs@) =~= seq![]);
            assert(views(c.snapshots@) =~= seq![]);
            assert(views(c.destinations@) =~= seq![]);
            assert(views(c.archives@) =~= seq![]);
        }
        c
    }

    /// The catalog with these tables, where they are as they must be: nothing is
    /// there twice, and rows stand by number. A row may be of something that is
    /// not there, and a last number that a row is above is raised to it.
    pub fn load(
        devices: Vec<DeviceRow>,
        runs: Vec<RunRecord>,
        snapshots: Vec<SnapshotRecord>,
        destinations: Vec<DestinationRecord>,
        archives: Vec<ArchiveRecord>,
        last: LastNumbers,
    ) -> (r: Option<Catalog>)
        ensures
            ({
                let held = tables(
                    devices@,
                    runs@,
                    snapshots@,
                    destinations@,
                    archives@,
                    last,
                ).raised();
                match r {
                    Some(c) => held.wf() && c@ == held,
                    None => !held.wf(),
                }
            }),
    {
        let run_ids = run_numbers(&runs);
        let snapshot_ids = snapshot_numbers(&snapshots);
        let destination_ids = destination_numbers(&destinations);
        let archive_ids = archive_numbers(&archives);
        proof {
            assert(run_ids@ =~= views(runs@).map_values(|r: RunView| r.id));
            assert(snapshot_ids@ =~= views(snapshots@).map_values(|s: SnapshotView| s.id));
            assert(destination_ids@ =~= views(destinations@).map_values(
                |d: DestinationView| d.id,
            ));
            assert(archive_ids@ =~= views(archives@).map_values(|a: ArchiveView| a.id));
        }
        let last = LastNumbers {
            run: find_greatest(&run_ids, last.run),
            snapshot: find_greatest(&snapshot_ids, last.snapshot),
            destination: find_greatest(&destination_ids, last.destination),
            archive: find_greatest(&archive_ids, last.archive),
        };
        let c = Catalog { devices, runs, snapshots, destinations, archives, last };
        if c.devices_hold() && c.runs_hold() && c.snapshots_hold() && c.destinations_hold()
            && c.archives_hold() {
            Some(c)
        } else {
            None
        }
    }

    /// Whether no device is there twice.
    fn devices_hold(&self) -> (r: bool)
        ensures
            r == self@.devices_ok(),
    {
        let ghost rows = self@.devices;
        let mut i: usize = 0;
        while i < self.devices.len()
            invariant
                i <= self.devices@.len(),
                rows == self@.devices,
                forall|k: int, l: int|
                    0 <= k < l < rows.len() && k < i ==> (#[trigger] rows[k]).udid != (
                    #[trigger] rows[l]).udid,
            decreases self.devices@.len() - i,
        {
            let mut j: usize = i + 1;
            while j < self.devices.len()
                invariant
                    i < j <= self.devices@.len(),
                    rows == self@.devices,
                    forall|l: int| i < l < j ==> rows[i as int].udid != (#[trigger] rows[l]).udid,
                decreases self.devices@.len() - j,
            {
                assert(rows[i as int] == self.devices@[i as int]@);
                assert(rows[j as int] == self.devices@[j as int]@);
                if same_text(
                    self.devices[i].record.udid.as_str(),
                    self.devices[j].record.udid.as_str(),
                ) {
                    return false;
                }
                j = j + 1;
            }
            i = i + 1;
        }
        true
    }

    /// Whether the runs are as they must be.
    fn runs_hold(&self) -> (r: bool)
        ensures
            r == self@.runs_ok(),
    {
        let ghost rows = self@.runs;
        let ids = run_numbers(&self.runs);
        assert(rows.len() == ids@.len());
        if !rising(&ids, self.last.run) {
            proof {
                if self@.runs_ok() {
                    assert forall|i: int, j: int| 0 <= i < j < ids@.len() implies (
                    #[trigger] ids@[i]) < (#[trigger] ids@[j]) by {
                        assert(rows[i].id < rows[j].id);
                    }
                    assert forall|i: int| 0 <= i < ids@.len() implies (#[trigger] ids@[i])
                        <= self.last.run by {
                        assert(rows[i].id <= self@.last_run);
                    }
                }
            }
            return false;
        }
        proof {
            assert forall|i: int, j: int| 0 <= i < j < rows.len() implies (#[trigger] rows[i]).id
                < (#[trigger] rows[j]).id by {
                assert(ids@[i] < ids@[j]);
            }
            assert forall|i: int| 0 <= i < rows.len() implies (#[trigger] rows[i]).id
                <= self@.last_run by {
                assert(ids@[i] <= self.last.run);
            }
        }
        true
    }

    /// Whether the snapshots are as they must be.
    fn snapshots_hold(&self) -> (r: bool)
        ensures
            r == self@.snapshots_ok(),
    {
        let ghost rows = self@.snapshots;
        let ids = snapshot_numbers(&self.snapshots);
        assert(rows.len() == ids@.len());
        if !rising(&ids, self.last.snapshot) {
            proof {
                if self@.snapshots_ok() {
                    assert forall|i: int, j: int| 0 <= i < j < ids@.len() implies (
                    #[trigger] ids@[i]) < (#[trigger] ids@[j]) by {
                        assert(rows[i].id < rows[j].id);
                    }
                    assert forall|i: int| 0 <= i < ids@.len() implies (#[trigger] ids@[i])
                        <= self.last.snapshot by {
                        assert(rows[i].id <= self@.last_snapshot);
                    }
                }
            }
            return false;
        }
        proof {
            assert forall|i: int, j: int| 0 <= i < j < rows.len() implies (#[trigger] rows[i]).id
                < (#[trigger] rows[j]).id by {
                assert(ids@[i] < ids@[j]);
            }
            assert forall|i: int| 0 <= i < rows.len() implies (#[trigger] rows[i]).id
                <= self@.last_snapshot by {
                assert(ids@[i] <= self.last.snapshot);
            }
        }
        true
    }

    /// Whether the destinations are as they must be.
    fn destinations_hold(&self) -> (r: bool)
        ensures
            r == self@.destinations_ok(),
    {
        let ghost rows = self@.destinations;
        let ids = destination_numbers(&self.destinations);
        assert(rows.len() == ids@.len());
        if !rising(&ids, self.last.destination) {
            proof {
                if self@.destinations_ok() {
                    assert forall|i: int, j: int| 0 <= i < j < ids@.len() implies (
                    #[trigger] ids@[i]) < (#[trigger] ids@[j]) by {
                        assert(rows[i].id < rows[j].id);
                    }
                    assert forall|i: int| 0 <= i < ids@.len() implies (#[trigger] ids@[i])
                        <= self.last.destination by {
                        assert(rows[i].id <= self@.last_destination);
                    }
                }
            }
            return false;
        }
        let mut i: usize = 0;
        while i < self.destinations.len()
            invariant
                i <= self.destinations@.len(),
                rows == self@.destinations,
                forall|k: int, l: int|
                    0 <= k < l < rows.len() && k < i ==> (#[trigger] rows[k]).name != (
                    #[trigger] rows[l]).name,
            decreases self.destinations@.len() - i,
        {
            let mut j: usize = i + 1;
            while j < self.destinations.len()
                invariant
                    i < j <= self.destinations@.len(),
                    rows == self@.destinations,
                    forall|l: int| i < l < j ==> rows[i as int].name != (#[trigger] rows[l]).name,
                decreases self.destinations@.len() - j,
            {
                assert(rows[i as int] == self.destinations@[i as int]@);
                assert(rows[j as int] == self.destinations@[j as int]@);
                if same_text(
                    self.destinations[i].name.as_str(),
                    self.destinations[j].name.as_str(),
                ) {
                    return false;
                }
                j = j + 1;
            }
            i = i + 1;
        }
        proof {
            assert forall|i: int, j: int| 0 <= i < j < rows.len() implies (#[trigger] rows[i]).id
                < (#[trigger] rows[j]).id && rows[i].name != rows[j].name by {
                assert(ids@[i] < ids@[j]);
            }
            assert forall|i: int| 0 <= i < rows.len() implies (#[trigger] rows[i]).id
                <= self@.last_destination by {
                assert(ids@[i] <= self.last.destination);
            }
        }
        true
    }

    /// Whether the archives are as they must be.
    fn archives_hold(&self) -> (r: bool)
        ensures
            r == self@.archives_ok(),
    {
        let ghost rows = self@.archives;
        let ids = archive_numbers(&self.archives);
        assert(rows.len() == ids@.len());
        if !rising(&ids, self.last.archive) {
            proof {
                if self@.archives_ok() {
                    assert forall|i: int, j: int| 0 <= i < j < ids@.len() implies (
                    #[trigger] ids@[i]) < (#[trigger] ids@[j]) by {
                        assert(rows[i].id < rows[j].id);
                    }
                    assert forall|i: int| 0 <= i < ids@.len() implies (#[trigger] ids@[i])
                        <= self.last.archive by {
                        assert(rows[i].id <= self@.last_archive);
                    }
                }
            }
            return false;
        }
        proof {
            assert forall|i: int, j: int| 0 <= i < j < rows.len() implies (#[trigger] rows[i]).id
                < (#[trigger] rows[j]).id by {
                assert(ids@[i] < ids@[j]);
            }
            assert forall|i: int| 0 <= i < rows.len() implies (#[trigger] rows[i]).id
                <= self@.last_archive by {
                assert(ids@[i] <= self.last.archive);
            }
        }
        true
    }

    /// The devices, as they are kept.
    pub fn device_rows(&self) -> (rows: &Vec<DeviceRow>)
        ensures
            views(rows@) == self@.devices,
    {
        &self.devices
    }

    /// The runs, as they are kept.
    pub fn run_rows(&self) -> (rows: &Vec<RunRecord>)
        ensures
            views(rows@) == self@.runs,
    {
        &self.runs
    }

    /// The snapshots, as they are kept.
    pub fn snapshot_rows(&self) -> (rows: &Vec<SnapshotRecord>)
        ensures
            views(rows@) == self@.snapshots,
    {
        &self.snapshots
    }

    /// The destinations, as they are kept.
    pub fn destination_rows(&self) -> (rows: &Vec<DestinationRecord>)
        ensures
            views(rows@) == self@.destinations,
    {
        &self.destinations
    }

    /// The archives, as they are kept.
    pub fn archive_rows(&self) -> (rows: &Vec<ArchiveRecord>)
        ensures
            views(rows@) == self@.archives,
    {
        &self.archives
    }

    /// Where the catalog is kept, below the platform's data directory.
    pub fn default_path(data_dir: Option<&str>) -> (r: Result<String, CradleError>)
        ensures
            match (data_dir, r) {
                (Some(base), Ok(p)) => p@ == joined(joined(base@, "Cradle"@), "catalog.db"@),
                (None, Err(e)) => e@ == ErrorView::Other(
                    "could not determine a data directory for this platform"@,
                ),
                _ => false,
            },
    {
        match data_dir {
            Some(base) => Ok(join(join(base, "Cradle").as_str(), "catalog.db")),
            None => Err(
                CradleError::Other(
                    "could not determine a data directory for this platform".to_owned(),
                ),
            ),
        }
    }

    /// Takes in that a device was seen: a known one is brought up to date.
    pub fn upsert_device(&mut self, device: &DeviceRecord, now: i64)
        requires
            old(self)@.wf(),
        ensures
            final(self)@.wf(),
            final(self)@ == old(self)@.seen(device_seen(*device, now)),
    {
        let ghost before = self@;
        proof {
            seen_wf(before, device_seen(*device, now));
        }
        let at = find_device(&self.devices, device.udid.as_str());
        let row = DeviceRow { record: device.copy(), last_seen: now };
        assert(row@ == device_seen(*device, now));
        if at < self.devices.len() {
            self.devices.set(at, row);
        } else {
            self.devices.push(row);
        }
    }

    /// Every device seen, the one seen last first.
    pub fn list_devices(&self) -> (out: Vec<DeviceRow>)
        ensures
            views(out@) == devices_listed(self@.devices),
    {
        devices_in_order(&self.devices)
    }

    /// Starts a run of a known device, and gives its number.
    pub fn start_run(&mut self, udid: &str, kind: RunKind, now: i64) -> (r: Result<i64, CradleError>)
        requires
            old(self)@.wf(),
        ensures
            final(self)@.wf(),
            match r {
                Ok(id) => {
                    &&& has_device(old(self)@.devices, udid@)
                    &&& id == old(self)@.last_run + 1
                    &&& final(self)@ == old(self)@.started(udid@, kind, now)
                    &&& has_run(final(self)@.runs, id)
                },
                Err(e) => {
                    &&& final(self)@ == old(self)@
                    &&& if old(self)@.last_run == i64::MAX {
                        e@ == table_full()
                    } else {
                        !has_device(old(self)@.devices, udid@) && e@ == reference_missing()
                    }
                },
            },
    {
        let ghost before = self@;
        if self.last.run == i64::MAX {
            return Err(CradleError::Catalog("database or disk is full".to_owned()));
        }
        if !knows_device(&self.devices, udid) {
            return Err(CradleError::Catalog("FOREIGN KEY constraint failed".to_owned()));
        }
        proof {
            started_wf(before, udid@, kind, now);
        }
        let id: i64 = self.last.run + 1;
        self.runs.push(
            RunRecord {
                id,
                udid: udid.to_owned(),
                kind: kind.as_str().to_owned(),
                started_at: now,
                ended_at: None,
                status: RunStatus::Running.as_str().to_owned(),
                bytes: None,
                files: None,
                error: None,
            },
        );
        self.last.run = id;
        Ok(id)
    }

    /// Closes the runs of a device that were left running, as failed, and
    /// counts them.
    pub fn fail_abandoned_runs(&mut self, udid: &str, now: i64) -> (n: u64)
        requires
            old(self)@.wf(),
        ensures
            final(self)@.wf(),
            final(self)@ == old(self)@.runs_abandoned(udid@, now),
            n == kept(old(self)@.runs, |x: RunView| is_running(x, udid@)).len(),
    {
        proof {
            with_runs_wf(self@, |x: RunView| abandoned_run(x, udid@, now));
        }
        abandon_runs(&mut self.runs, udid, now)
    }

    /// Ends a run.
    pub fn finish_run(
        &mut self,
        run_id: i64,
        status: RunStatus,
        bytes: u64,
        files: u64,
        error: Option<&str>,
        now: i64,
    )
        requires
            old(self)@.wf(),
        ensures
            final(self)@.wf(),
            final(self)@ == old(self)@.run_ended(
                run_id,
                now,
                status,
                bytes,
                files,
                opt_text(error),
            ),
    {
        proof {
            with_runs_wf(
                self@,
                |x: RunView|
                    if x.id == run_id {
                        ended(x, now, status, bytes, files, opt_text(error))
                    } else {
                        x
                    },
            );
        }
        end_runs(&mut self.runs, run_id, now, status, bytes, files, error);
    }

    /// Ends a run as succeeded and records its snapshot, both or neither.
    pub fn finish_run_with_snapshot(
        &mut self,
        run_id: i64,
        bytes: u64,
        files: u64,
        udid: &str,
        size: u64,
        ios_version: &str,
        verified: bool,
        now: i64,
    ) -> (r: Result<i64, CradleError>)
        requires
            old(self)@.wf(),
        ensures
            final(self)@.wf(),
            match r {
                Ok(id) => {
                    let snapshot = old(self)@.next_snapshot(
                        udid@,
                        run_id,
                        size,
                        ios_version@,
                        verified,
                        now,
                    );
                    &&& id == snapshot.id
                    &&& final(self)@ == old(self)@.run_ended(
                        run_id,
                        now,
                        RunStatus::Succeeded,
                        bytes,
                        files,
                        None,
                    ).taken(snapshot)
                },
                Err(e) => final(self)@ == old(self)@ && e@ == snapshot_refusal(
                    old(self)@,
                    udid@,
                    run_id,
                ),
            },
            r is Ok <==> snapshot_fits(old(self)@, udid@, run_id),
    {
        let ghost before = self@;
        let ghost f = |x: RunView|
            if x.id == run_id {
                ended(x, now, RunStatus::Succeeded, bytes, files, None)
            } else {
                x
            };
        match self.snapshot_obstacle(udid, run_id) {
            Some(e) => {
                return Err(e);
            },
            None => {},
        }
        proof {
            with_runs_wf(before, f);
        }
        end_runs(&mut self.runs, run_id, now, RunStatus::Succeeded, bytes, files, None);
        let ghost middle = self@;
        assert(middle.runs =~= before.with_runs(f).runs);
        assert(middle == before.with_runs(f));
        assert(has_run(middle.runs, run_id) == has_run(before.runs, run_id));
        proof {
            taken_wf(
                middle,
                middle.next_snapshot(udid@, run_id, size, ios_version@, verified, now),
            );
        }
        Ok(self.push_snapshot(udid, run_id, size, ios_version, verified, now))
    }

    /// Why a snapshot cannot be recorded, if it cannot.
    fn snapshot_obstacle(&self, udid: &str, run_id: i64) -> (r: Option<CradleError>)
        ensures
            match r {
                Some(e) => !snapshot_fits(self@, udid@, run_id) && e@ == snapshot_refusal(
                    self@,
                    udid@,
                    run_id,
                ),
                None => snapshot_fits(self@, udid@, run_id),
            },
    {
        if self.last.snapshot == i64::MAX {
            return Some(CradleError::Catalog("database or disk is full".to_owned()));
        }
        if !knows_device(&self.devices, udid) || !knows_run(&self.runs, run_id) {
            return Some(CradleError::Catalog("FOREIGN KEY constraint failed".to_owned()));
        }
        None
    }

    /// Adds the next snapshot.
    fn push_snapshot(
        &mut self,
        udid: &str,
        run_id: i64,
        size: u64,
        ios_version: &str,
        verified: bool,
        now: i64,
    ) -> (id: i64)
        requires
            old(self)@.last_snapshot < i64::MAX,
        ensures
            id == old(self)@.last_snapshot + 1,
            final(self)@ == old(self)@.taken(
                old(self)@.next_snapshot(udid@, run_id, size, ios_version@, verified, now),
            ),
    {
        let id: i64 = self.last.snapshot + 1;
        self.snapshots.push(
            SnapshotRecord {
                id,
                udid: udid.to_owned(),
                run_id,
                taken_at: now,
                size: size as i64,
                ios_version: ios_version.to_owned(),
                verified_at: if verified {
                    Some(now)
                } else {
                    None
                },
            },
        );
        self.last.snapshot = id;
        id
    }

    /// Records a snapshot of a known device and run, and gives its number.
    pub fn record_snapshot(
        &mut self,
        udid: &str,
        run_id: i64,
        size: u64,
        ios_version: &str,
        verified: bool,
        now: i64,
    ) -> (r: Result<i64, CradleError>)
        requires
            old(self)@.wf(),
        ensures
            final(self)@.wf(),
            match r {
                Ok(id) => {
                    let snapshot = old(self)@.next_snapshot(
                        udid@,
                        run_id,
                        size,
                        ios_version@,
                        verified,
                        now,
                    );
                    id == snapshot.id && final(self)@ == old(self)@.taken(snapshot)
                },
                Err(e) => final(self)@ == old(self)@ && e@ == snapshot_refusal(
                    old(self)@,
                    udid@,
                    run_id,
                ),
            },
            r is Ok <==> snapshot_fits(old(self)@, udid@, run_id),
    {
        match self.snapshot_obstacle(udid, run_id) {
            Some(e) => {
                return Err(e);
            },
            None => {},
        }
        proof {
            taken_wf(
                self@,
                self@.next_snapshot(udid@, run_id, size, ios_version@, verified, now),
            );
        }
        Ok(self.push_snapshot(udid, run_id, size, ios_version, verified, now))
    }

    /// The runs of a device, the latest first.
    pub fn list_runs(&self, udid: &str) -> (out: Vec<RunRecord>)
        ensures
            views(out@) == runs_listed(self@.runs, udid@),
    {
        runs_of(&self.runs, udid)
    }

    /// The snapshots of a device, the latest first.
    pub fn list_snapshots(&self, udid: &str) -> (out: Vec<SnapshotRecord>)
        ensures
            views(out@) == snapshots_listed(self@.snapshots, udid@),
    {
        snapshots_of(&self.snapshots, udid)
    }

    /// The latest run of a device.
    pub fn latest_run(&self, udid: &str) -> (r: Option<RunRecord>)
        ensures
            first_is(runs_listed(self@.runs, udid@), r),
    {
        let all = runs_of(&self.runs, udid);
        assert(views(all@).len() == all@.len());
        if all.len() == 0 {
            None
        } else {
            assert(views(all@)[0] == all@[0]@);
            Some(all[0].copy())
        }
    }

    /// The latest verified snapshot of a device.
    pub fn latest_verified_snapshot(&self, udid: &str) -> (r: Option<SnapshotRecord>)
        ensures
            first_is(verified_listed(self@.snapshots, udid@), r),
    {
        let all = verified_of(&self.snapshots, udid);
        assert(views(all@).len() == all@.len());
        if all.len() == 0 {
            None
        } else {
            assert(views(all@)[0] == all@[0]@);
            Some(all[0].copy())
        }
    }

    /// The latest snapshot of a device, verified or not.
    pub fn latest_snapshot(&self, udid: &str) -> (r: Option<SnapshotRecord>)
        ensures
            first_is(snapshots_listed(self@.snapshots, udid@), r),
    {
        let all = snapshots_of(&self.snapshots, udid);
        assert(views(all@).len() == all@.len());
        if all.len() == 0 {
            None
        } else {
            assert(views(all@)[0] == all@[0]@);
            Some(all[0].copy())
        }
    }

    /// Marks a snapshot verified. One that is verified keeps when it was.
    pub fn mark_snapshot_verified(&mut self, snapshot_id: i64, now: i64)
        requires
            old(self)@.wf(),
        ensures
            final(self)@.wf(),
            final(self)@ == old(self)@.marked_verified(snapshot_id, now),
    {
        let ghost before = self@;
        mark_snapshots(&mut self.snapshots, snapshot_id, now);
        proof {
            marked_wf(before, snapshot_id, now);
        }
    }

    /// Adds a destination under a name that is not taken, and gives its number.
    pub fn create_destination(
        &mut self,
        name: &str,
        kind: &str,
        uri: &str,
        credential_ref: &str,
    ) -> (r: Result<i64, CradleError>)
        requires
            old(self)@.wf(),
        ensures
            final(self)@.wf(),
            match r {
                Ok(id) => {
                    &&& !has_name(old(self)@.destinations, name@)
                    &&& id == old(self)@.last_destination + 1
                    &&& final(self)@ == old(self)@.with_destination(
                        name@,
                        kind@,
                        uri@,
                        credential_ref@,
                    )
                },
                Err(e) => {
                    &&& final(self)@ == old(self)@
                    &&& if old(self)@.last_destination == i64::MAX {
                        e@ == table_full()
                    } else {
                        has_name(old(self)@.destinations, name@) && e@ == name_taken()
                    }
                },
            },
    {
        let ghost before = self@;
        if self.last.destination == i64::MAX {
            return Err(CradleError::Catalog("database or disk is full".to_owned()));
        }
        if knows_name(&self.destinations, name) {
            return Err(
                CradleError::Catalog("UNIQUE constraint failed: destinations.name".to_owned()),
            );
        }
        let id: i64 = self.last.destination + 1;
        self.destinations.push(
            DestinationRecord {
                id,
                name: name.to_owned(),
                kind: kind.to_owned(),
                uri: uri.to_owned(),
                credential_ref: credential_ref.to_owned(),
                retention_json: None,
            },
        );
        self.last.destination = id;
        proof {
            with_destination_wf(before, name@, kind@, uri@, credential_ref@);
        }
        Ok(id)
    }

    /// The destination with this name.
    pub fn destination_by_name(&self, name: &str) -> (r: Option<DestinationRecord>)
        ensures
            match r {
                Some(d) => named(self@.destinations, name@) == Some(d@),
                None => named(self@.destinations, name@) is None,
            },
            r is Some <==> has_name(self@.destinations, name@),
    {
        let ghost rows = self@.destinations;
        let mut i: usize = 0;
        proof {
            named_facts(rows, name@);
            assert(rows.skip(0) =~= rows);
        }
        while i < self.destinations.len()
            invariant
                i <= self.destinations@.len(),
                rows == self@.destinations,
                named(rows, name@) == named(rows.skip(i as int), name@),
                named(rows, name@) is Some <==> has_name(rows, name@),
            decreases self.destinations@.len() - i,
        {
            assert(rows[i as int] == self.destinations@[i as int]@);
            assert(rows.skip(i as int)[0] == rows[i as int]);
            if same_text(self.destinations[i].name.as_str(), name) {
                return Some(self.destinations[i].copy());
            }
            assert(rows.skip(i as int).skip(1) =~= rows.skip(i + 1));
            i = i + 1;
        }
        None
    }

    /// Removes a destination and every archive recorded there.
    pub fn delete_destination(&mut self, id: i64)
        requires
            old(self)@.wf(),
        ensures
            final(self)@.wf(),
            final(self)@ == old(self)@.without_destination(id),
    {
        let ghost before = self@;
        self.archives = archives_elsewhere(&self.archives, id);
        self.destinations = other_destinations(&self.destinations, id);
        proof {
            without_destination_wf(before, id);
            assert(self@.archives =~= before.without_destination(id).archives);
            assert(self@.destinations =~= before.without_destination(id).destinations);
        }
    }

    /// Every destination, in the order of their names.
    pub fn list_destinations(&self) -> (out: Vec<DestinationRecord>)
        ensures
            views(out@) == by_name(self@.destinations),
    {
        destinations_in_order(&self.destinations)
    }

    /// Sets how long a destination keeps what is archived there.
    pub fn set_destination_retention(&mut self, destination_id: i64, retention_json: &str)
        requires
            old(self)@.wf(),
        ensures
            final(self)@.wf(),
            final(self)@ == old(self)@.with_retention(destination_id, retention_json@),
    {
        let ghost before = self@;
        retain_at(&mut self.destinations, destination_id, retention_json);
        proof {
            retaining_wf(before, destination_id, retention_json@);
        }
    }

    /// Starts an archive of a known snapshot at a known destination, and gives
    /// its number.
    pub fn start_archive(&mut self, snapshot_id: i64, destination_id: i64, now: i64) -> (r: Result<
        i64,
        CradleError,
    >)
        requires
            old(self)@.wf(),
        ensures
            final(self)@.wf(),
            ({
                let fits = has_snapshot(old(self)@.snapshots, snapshot_id) && has_destination(
                    old(self)@.destinations,
                    destination_id,
                );
                match r {
                    Ok(id) => {
                        &&& fits
                        &&& id == old(self)@.last_archive + 1
                        &&& final(self)@ == old(self)@.archiving(
                            snapshot_id,
                            destination_id,
                            now,
                        )
                    },
                    Err(e) => {
                        &&& final(self)@ == old(self)@
                        &&& if old(self)@.last_archive == i64::MAX {
                            e@ == table_full()
                        } else {
                            !fits && e@ == reference_missing()
                        }
                    },
                }
            }),
    {
        let ghost before = self@;
        if self.last.archive == i64::MAX {
            return Err(CradleError::Catalog("database or disk is full".to_owned()));
        }
        if !knows_snapshot(&self.snapshots, snapshot_id) || !knows_destination(
            &self.destinations,
            destination_id,
        ) {
            return Err(CradleError::Catalog("FOREIGN KEY constraint failed".to_owned()));
        }
        let id: i64 = self.last.archive + 1;
        self.archives.push(
            ArchiveRecord {
                id,
                snapshot_id,
                destination_id,
                restic_id: None,
                state: ArchiveState::Pending.as_str().to_owned(),
                created_at: now,
                verified_at: None,
                error: None,
            },
        );
        self.last.archive = id;
        proof {
            archiving_wf(before, snapshot_id, destination_id, now);
        }
        Ok(id)
    }

    /// Closes the archives of a snapshot that were left pending, as failed, and
    /// counts them.
    pub fn fail_abandoned_archives(&mut self, snapshot_id: i64) -> (n: u64)
        requires
            old(self)@.wf(),
        ensures
            final(self)@.wf(),
            final(self)@ == old(self)@.archives_abandoned(snapshot_id),
            n == kept(old(self)@.archives, |x: ArchiveView| is_pending(x, snapshot_id)).len(),
    {
        proof {
            with_archives_wf(self@, |x: ArchiveView| abandoned_archive(x, snapshot_id));
        }
        abandon_archives(&mut self.archives, snapshot_id)
    }

    /// Ends an archive. Only one that succeeded counts as verified.
    pub fn finish_archive(
        &mut self,
        archive_id: i64,
        state: ArchiveState,
        restic_id: Option<&str>,
        error: Option<&str>,
        now: i64,
    )
        requires
            old(self)@.wf(),
        ensures
            final(self)@.wf(),
            final(self)@ == old(self)@.archive_closed(
                archive_id,
                state,
                opt_text(restic_id),
                opt_text(error),
                now,
            ),
    {
        proof {
            with_archives_wf(
                self@,
                |x: ArchiveView|
                    if x.id == archive_id {
                        archive_ended(x, state, opt_text(restic_id), opt_text(error), now)
                    } else {
                        x
                    },
            );
        }
        end_archives(&mut self.archives, archive_id, state, restic_id, error, now);
    }

    /// The archives of a snapshot, the latest first.
    pub fn list_archives_for_snapshot(&self, snapshot_id: i64) -> (out: Vec<ArchiveRecord>)
        ensures
            views(out@) == archives_listed(self@.archives, snapshot_id),
    {
        archives_of(&self.archives, snapshot_id)
    }
}


// --- laws ------------------------------------------------------------------------------------------

/// After the abandoned runs of a device are closed none of its runs is running,
/// and every run that was not running, or is of another device, is as it was.
pub proof fn law_abandoned_runs_are_closed(c: CatalogView, udid: Seq<char>, now: i64, i: int)
    requires
        0 <= i < c.runs.len(),
    ensures
        ({
            let next = c.runs_abandoned(udid, now);
            &&& next.runs.len() == c.runs.len()
            &&& !is_running(next.runs[i], udid)
            &&& !is_running(c.runs[i], udid) ==> next.runs[i] == c.runs[i]
            &&& is_running(c.runs[i], udid) ==> next.runs[i].status == RunStatus::Failed.word()
                && next.runs[i].ended_at == Some(now)
        }),
{
    law_words_tell_apart(
        RunStatus::Failed,
        RunStatus::Running,
        ArchiveState::Failed,
        ArchiveState::Pending,
    );
}

/// Closing abandoned runs again closes nothing more.
pub proof fn law_abandoned_runs_close_once(c: CatalogView, udid: Seq<char>, now: i64, later: i64)
    ensures
        ({
            let next = c.runs_abandoned(udid, now);
            next.runs_abandoned(udid, later) == next
        }),
{
    let next = c.runs_abandoned(udid, now);
    let again = next.runs_abandoned(udid, later);
    assert forall|i: int| 0 <= i < c.runs.len() implies again.runs[i] == #[trigger] next.runs[i] by {
        law_abandoned_runs_are_closed(c, udid, now, i);
    }
    assert(again.runs =~= next.runs);
}

/// A run that is started and then ended is there with how it ended, and every
/// other run is as it was.
pub proof fn law_run_reads_back(
    c: CatalogView,
    udid: Seq<char>,
    kind: RunKind,
    started_at: i64,
    ended_at: i64,
    status: RunStatus,
    bytes: u64,
    files: u64,
    error: Option<Seq<char>>,
)
    requires
        c.wf(),
        c.last_run < i64::MAX,
    ensures
        ({
            let id = (c.last_run + 1) as i64;
            let next = c.started(udid, kind, started_at).run_ended(
                id,
                ended_at,
                status,
                bytes,
                files,
                error,
            );
            &&& next.runs.len() == c.runs.len() + 1
            &&& next.runs.last() == (RunView {
                id,
                udid,
                kind: kind.word(),
                started_at,
                ended_at: Some(ended_at),
                status: status.word(),
                bytes: Some(bytes as i64),
                files: Some(files as i64),
                error,
            })
            &&& next.runs.drop_last() == c.runs
        }),
{
    let id = (c.last_run + 1) as i64;
    let next = c.started(udid, kind, started_at).run_ended(
        id,
        ended_at,
        status,
        bytes,
        files,
        error,
    );
    assert forall|i: int| 0 <= i < c.runs.len() implies next.runs[i] == #[trigger] c.runs[i] by {
        assert(c.runs[i].id <= c.last_run);
    }
    assert(next.runs.drop_last() =~= c.runs);
}

/// The latest verified snapshot of a device is verified, is of that device, and
/// no verified snapshot of the device was taken later.
pub proof fn law_latest_verified_is_verified(c: CatalogView, udid: Seq<char>)
    ensures
        ({
            let listed = verified_listed(c.snapshots, udid);
            &&& listed.len() > 0 ==> {
                &&& c.snapshots.contains(listed[0])
                &&& listed[0].udid == udid
                &&& listed[0].verified_at is Some
                &&& forall|i: int|
                    0 <= i < c.snapshots.len() && (#[trigger] c.snapshots[i]).udid == udid
                        && c.snapshots[i].verified_at is Some ==> c.snapshots[i].taken_at
                        <= listed[0].taken_at
            }
            &&& listed.len() == 0 ==> forall|i: int|
                0 <= i < c.snapshots.len() ==> !((#[trigger] c.snapshots[i]).udid == udid
                    && c.snapshots[i].verified_at is Some)
        }),
{
    let p = |x: SnapshotView| x.udid == udid && x.verified_at is Some;
    let time = |x: SnapshotView| x.taken_at;
    let mine = kept(c.snapshots, p);
    let times = mine.map_values(time);
    law_newest_first_lists_all(mine, times);
    let listed = verified_listed(c.snapshots, udid);
    assert(listed == newest_first(mine, times));
    if listed.len() > 0 {
        assert(listed.contains(listed[0]));
        assert(mine.contains(listed[0]));
        kept_contains(c.snapshots, p, listed[0]);
    }
    assert forall|i: int|
        0 <= i < c.snapshots.len() && (#[trigger] c.snapshots[i]).udid == udid
            && c.snapshots[i].verified_at is Some implies listed.len() > 0
        && c.snapshots[i].taken_at <= listed[0].taken_at by {
        let s = c.snapshots[i];
        kept_contains(c.snapshots, p, s);
        assert(c.snapshots.contains(s));
        assert(mine.contains(s));
        let k = choose|k: int| 0 <= k < mine.len() && mine[k] == s;
        assert(times[k] == s.taken_at);
        assert(times[newest(times)[0]] == listed[0].taken_at);
    }
}

/// The latest run of a device is of that device, and none of its runs was
/// started later.
pub proof fn law_latest_run_is_latest(c: CatalogView, udid: Seq<char>)
    ensures
        ({
            let listed = runs_listed(c.runs, udid);
            &&& listed.len() > 0 ==> {
                &&& c.runs.contains(listed[0])
                &&& listed[0].udid == udid
                &&& forall|i: int|
                    0 <= i < c.runs.len() && (#[trigger] c.runs[i]).udid == udid
                        ==> c.runs[i].started_at <= listed[0].started_at
            }
            &&& listed.len() == 0 ==> forall|i: int|
                0 <= i < c.runs.len() ==> (#[trigger] c.runs[i]).udid != udid
        }),
{
    let p = |x: RunView| x.udid == udid;
    let time = |x: RunView| x.started_at;
    let mine = kept(c.runs, p);
    let times = mine.map_values(time);
    law_newest_first_lists_all(mine, times);
    let listed = runs_listed(c.runs, udid);
    assert(listed == newest_first(mine, times));
    if listed.len() > 0 {
        assert(listed.contains(listed[0]));
        assert(mine.contains(listed[0]));
        kept_contains(c.runs, p, listed[0]);
    }
    assert forall|i: int| 0 <= i < c.runs.len() && (#[trigger] c.runs[i]).udid == udid implies listed.len()
        > 0 && c.runs[i].started_at <= listed[0].started_at by {
        let r = c.runs[i];
        kept_contains(c.runs, p, r);
        assert(c.runs.contains(r));
        assert(mine.contains(r));
        let k = choose|k: int| 0 <= k < mine.len() && mine[k] == r;
        assert(times[k] == r.started_at);
        assert(times[newest(times)[0]] == listed[0].started_at);
    }
}

/// Removing a destination leaves no archive there and no destination with its
/// number, and takes nothing else away.
pub proof fn law_delete_destination(c: CatalogView, id: i64)
    ensures
        ({
            let next = c.without_destination(id);
            &&& !has_destination(next.destinations, id)
            &&& forall|a: ArchiveView| #[trigger]
                next.archives.contains(a) <==> c.archives.contains(a) && a.destination_id != id
            &&& forall|d: DestinationView| #[trigger]
                next.destinations.contains(d) <==> c.destinations.contains(d) && d.id != id
            &&& next.devices == c.devices && next.runs == c.runs && next.snapshots == c.snapshots
        }),
{
    let next = c.without_destination(id);
    let keeps_a = |a: ArchiveView| a.destination_id != id;
    let keeps_d = |d: DestinationView| d.id != id;
    assert forall|a: ArchiveView| #[trigger] next.archives.contains(a) <==> c.archives.contains(a)
        && a.destination_id != id by {
        kept_contains(c.archives, keeps_a, a);
    }
    assert forall|d: DestinationView| #[trigger]
        next.destinations.contains(d) <==> c.destinations.contains(d) && d.id != id by {
        kept_contains(c.destinations, keeps_d, d);
    }
    if has_destination(next.destinations, id) {
        let k = choose|k: int|
            0 <= k < next.destinations.len() && (#[trigger] next.destinations[k]).id == id;
        assert(next.destinations.contains(next.destinations[k]));
    }
}

/// Seeing a device again brings it up to date and adds nothing: it is there
/// once, as seen last.
pub proof fn law_seen_again_adds_nothing(c: CatalogView, a: DeviceView, b: DeviceView)
    requires
        c.wf(),
        a.udid == b.udid,
    ensures
        c.seen(a).seen(b) == c.seen(b),
        c.seen(a).seen(b).devices.len() == c.seen(a).devices.len(),
        has_device(c.devices, a.udid) ==> c.seen(a).devices.len() == c.devices.len(),
{
    device_place_facts(c.devices, a.udid);
    let at = device_place(c.devices, a.udid) as int;
    let once = c.seen(a);
    device_place_facts(once.devices, a.udid);
    let again = device_place(once.devices, a.udid) as int;
    seen_wf(c, a);
    if again != at {
        let (lo, hi) = if again < at {
            (again, at)
        } else {
            (at, again)
        };
        assert(once.devices[at].udid == a.udid);
        assert(has_device(once.devices, a.udid));
        assert(once.devices[lo].udid != once.devices[hi].udid);
    }
    assert(once.seen(b).devices =~= c.seen(b).devices);
    if has_device(c.devices, a.udid) {
        assert(at < c.devices.len());
    }
}

/// A snapshot that is verified keeps when it was, however often it is marked.
pub proof fn law_verification_time_stays(s: SnapshotView, id: i64, now: i64)
    requires
        s.verified_at is Some,
    ensures
        marked(s, id, now) == s,
{
}

/// A number is never given twice: a new run, snapshot, destination or archive
/// has a number that no row has or had.
pub proof fn law_numbers_are_new(c: CatalogView)
    requires
        c.wf(),
    ensures
        c.last_run < i64::MAX ==> !has_run(c.runs, (c.last_run + 1) as i64),
        c.last_snapshot < i64::MAX ==> !has_snapshot(c.snapshots, (c.last_snapshot + 1) as i64),
        c.last_destination < i64::MAX ==> !has_destination(
            c.destinations,
            (c.last_destination + 1) as i64,
        ),
        forall|id: i64| (#[trigger] c.without_destination(id)).last_destination
            == c.last_destination && c.without_destination(id).last_archive == c.last_archive,
{
}

/// The snapshots of a device are listed all, each once, and no other; the one taken
/// last comes first, and of two taken at one time the one recorded later.
pub proof fn law_snapshots_are_listed(c: CatalogView, udid: Seq<char>)
    requires
        c.wf(),
    ensures
        ({
            let listed = snapshots_listed(c.snapshots, udid);
            let mine = c.snapshots.filter(|x: SnapshotView| x.udid == udid);
            &&& listed.to_multiset() == mine.to_multiset()
            &&& listed.len() == mine.len()
            &&& forall|k: int|
                0 <= k < listed.len() ==> c.snapshots.contains(#[trigger] listed[k]) && ({
                    let x = listed[k];
                    x.udid == udid
                })
            &&& forall|i: int|
                0 <= i < c.snapshots.len() && ({
                    let x = #[trigger] c.snapshots[i];
                    x.udid == udid
                }) ==> listed.contains(c.snapshots[i]) && c.snapshots[i].taken_at <= listed[0].taken_at
            &&& forall|k: int, l: int|
                0 <= k < l < listed.len() ==> {
                    ||| (#[trigger] listed[k]).taken_at > (#[trigger] listed[l]).taken_at
                    ||| listed[k].taken_at == listed[l].taken_at && listed[k].id > listed[l].id
                }
        }),
{
    broadcast use vstd::seq_lib::group_to_multiset_ensures;

    let p = |x: SnapshotView| x.udid == udid;
    let time = |x: SnapshotView| x.taken_at;
    let places = lemma_listed(c.snapshots, p, time);
    let listed = snapshots_listed(c.snapshots, udid);
    let mine = c.snapshots.filter(p);
    assert forall|k: int, l: int| 0 <= k < l < listed.len() implies {
        ||| (#[trigger] listed[k]).taken_at > (#[trigger] listed[l]).taken_at
        ||| listed[k].taken_at == listed[l].taken_at && listed[k].id > listed[l].id
    } by {
        assert(c.snapshots[places[k]] == listed[k] && c.snapshots[places[l]] == listed[l]);
        assert(c.snapshots[places[k]].id > c.snapshots[places[l]].id || listed[k].taken_at
            > listed[l].taken_at) by {
            if places[k] > places[l] {
                assert(c.snapshots[places[l]].id < c.snapshots[places[k]].id);
            }
        }
    }
    assert forall|k: int| 0 <= k < listed.len() implies c.snapshots.contains(
        #[trigger] listed[k],
    ) && p(listed[k]) by {
        assert(c.snapshots[places[k]] == listed[k]);
    }
    assert forall|i: int| 0 <= i < c.snapshots.len() && p(#[trigger] c.snapshots[i]) implies listed.contains(
        c.snapshots[i],
    ) && c.snapshots[i].taken_at <= listed[0].taken_at by {
        let x = c.snapshots[i];
        kept_is_filtered(c.snapshots, p);
        kept_contains(c.snapshots, p, x);
        assert(c.snapshots.contains(x));
        assert(mine.contains(x));
        assert(mine.to_multiset().count(x) > 0);
        assert(listed.to_multiset().count(x) > 0);
        assert(listed.contains(x));
        let k = choose|k: int| 0 <= k < listed.len() && listed[k] == x;
        if k > 0 {
            assert(listed[0].taken_at >= listed[k].taken_at);
        }
    }
}

/// The verified snapshots of a device are listed all, each once, and no other; the
/// one taken last comes first, and of two taken at one time the one recorded later.
pub proof fn law_verified_snapshots_are_listed(c: CatalogView, udid: Seq<char>)
    requires
        c.wf(),
    ensures
        ({
            let listed = verified_listed(c.snapshots, udid);
            let mine = c.snapshots.filter(|x: SnapshotView| x.udid == udid && x.verified_at is Some);
            &&& listed.to_multiset() == mine.to_multiset()
            &&& listed.len() == mine.len()
            &&& forall|k: int|
                0 <= k < listed.len() ==> c.snapshots.contains(#[trigger] listed[k]) && ({
                    let x = listed[k];
                    x.udid == udid && x.verified_at is Some
                })
            &&& forall|i: int|
                0 <= i < c.snapshots.len() && ({
                    let x = #[trigger] c.snapshots[i];
                    x.udid == udid && x.verified_at is Some
                }) ==> listed.contains(c.snapshots[i]) && c.snapshots[i].taken_at <= listed[0].taken_at
            &&& forall|k: int, l: int|
                0 <= k < l < listed.len() ==> {
                    ||| (#[trigger] listed[k]).taken_at > (#[trigger] listed[l]).taken_at
                    ||| listed[k].taken_at == listed[l].taken_at && listed[k].id > listed[l].id
                }
        }),
{
    broadcast use vstd::seq_lib::group_to_multiset_ensures;

    let p = |x: SnapshotView| x.udid == udid && x.verified_at is Some;
    let time = |x: SnapshotView| x.taken_at;
    let places = lemma_listed(c.snapshots, p, time);
    let listed = verified_listed(c.snapshots, udid);
    let mine = c.snapshots.filter(p);
    assert forall|k: int, l: int| 0 <= k < l < listed.len() implies {
        ||| (#[trigger] listed[k]).taken_at > (#[trigger] listed[l]).taken_at
        ||| listed[k].taken_at == listed[l].taken_at && listed[k].id > listed[l].id
    } by {
        assert(c.snapshots[places[k]] == listed[k] && c.snapshots[places[l]] == listed[l]);
        assert(c.snapshots[places[k]].id > c.snapshots[places[l]].id || listed[k].taken_at
            > listed[l].taken_at) by {
            if places[k] > places[l] {
                assert(c.snapshots[places[l]].id < c.snapshots[places[k]].id);
            }
        }
    }
    assert forall|k: int| 0 <= k < listed.len() implies c.snapshots.contains(
        #[trigger] listed[k],
    ) && p(listed[k]) by {
        assert(c.snapshots[places[k]] == listed[k]);
    }
    assert forall|i: int| 0 <= i < c.snapshots.len() && p(#[trigger] c.snapshots[i]) implies listed.contains(
        c.snapshots[i],
    ) && c.snapshots[i].taken_at <= listed[0].taken_at by {
        let x = c.snapshots[i];
        kept_is_filtered(c.snapshots, p);
        kept_contains(c.snapshots, p, x);
        assert(c.snapshots.contains(x));
        assert(mine.contains(x));
        assert(mine.to_multiset().count(x) > 0);
        assert(listed.to_multiset().count(x) > 0);
        assert(listed.contains(x));
        let k = choose|k: int| 0 <= k < listed.len() && listed[k] == x;
        if k > 0 {
            assert(listed[0].taken_at >= listed[k].taken_at);
        }
    }
}

/// The runs of a device are listed all, each once, and no other; the one started
/// last comes first, and of two started at one time the one recorded later.
pub proof fn law_runs_are_listed(c: CatalogView, udid: Seq<char>)
    requires
        c.wf(),
    ensures
        ({
            let listed = runs_listed(c.runs, udid);
            let mine = c.runs.filter(|x: RunView| x.udid == udid);
            &&& listed.to_multiset() == mine.to_multiset()
            &&& listed.len() == mine.len()
            &&& forall|k: int|
                0 <= k < listed.len() ==> c.runs.contains(#[trigger] listed[k]) && ({
                    let x = listed[k];
                    x.udid == udid
                })
            &&& forall|i: int|
                0 <= i < c.runs.len() && ({
                    let x = #[trigger] c.runs[i];
                    x.udid == udid
                }) ==> listed.contains(c.runs[i]) && c.runs[i].started_at <= listed[0].started_at
            &&& forall|k: int, l: int|
                0 <= k < l < listed.len() ==> {
                    ||| (#[trigger] listed[k]).started_at > (#[trigger] listed[l]).started_at
                    ||| listed[k].started_at == listed[l].started_at && listed[k].id > listed[l].id
                }
        }),
{
    broadcast use vstd::seq_lib::group_to_multiset_ensures;

    let p = |x: RunView| x.udid == udid;
    let time = |x: RunView| x.started_at;
    let places = lemma_listed(c.runs, p, time);
    let listed = runs_listed(c.runs, udid);
    let mine = c.runs.filter(p);
    assert forall|k: int, l: int| 0 <= k < l < listed.len() implies {
        ||| (#[trigger] listed[k]).started_at > (#[trigger] listed[l]).started_at
        ||| listed[k].started_at == listed[l].started_at && listed[k].id > listed[l].id
    } by {
        assert(c.runs[places[k]] == listed[k] && c.runs[places[l]] == listed[l]);
        assert(c.runs[places[k]].id > c.runs[places[l]].id || listed[k].started_at
            > listed[l].started_at) by {
            if places[k] > places[l] {
                assert(c.runs[places[l]].id < c.runs[places[k]].id);
            }
        }
    }
    assert forall|k: int| 0 <= k < listed.len() implies c.runs.contains(
        #[trigger] listed[k],
    ) && p(listed[k]) by {
        assert(c.runs[places[k]] == listed[k]);
    }
    assert forall|i: int| 0 <= i < c.runs.len() && p(#[trigger] c.runs[i]) implies listed.contains(
        c.runs[i],
    ) && c.runs[i].started_at <= listed[0].started_at by {
        let x = c.runs[i];
        kept_is_filtered(c.runs, p);
        kept_contains(c.runs, p, x);
        assert(c.runs.contains(x));
        assert(mine.contains(x));
        assert(mine.to_multiset().count(x) > 0);
        assert(listed.to_multiset().count(x) > 0);
        assert(listed.contains(x));
        let k = choose|k: int| 0 <= k < listed.len() && listed[k] == x;
        if k > 0 {
            assert(listed[0].started_at >= listed[k].started_at);
        }
    }
}

/// The archives of a snapshot are listed all, each once, and no other; the one
/// started last comes first, and of two started at one time the one recorded later.
pub proof fn law_archives_are_listed(c: CatalogView, snapshot_id: i64)
    requires
        c.wf(),
    ensures
        ({
            let listed = archives_listed(c.archives, snapshot_id);
            let mine = c.archives.filter(|x: ArchiveView| x.snapshot_id == snapshot_id);
            &&& listed.to_multiset() == mine.to_multiset()
            &&& listed.len() == mine.len()
            &&& forall|k: int|
                0 <= k < listed.len() ==> c.archives.contains(#[trigger] listed[k]) && ({
                    let x = listed[k];
                    x.snapshot_id == snapshot_id
                })
            &&& forall|i: int|
                0 <= i < c.archives.len() && ({
                    let x = #[trigger] c.archives[i];
                    x.snapshot_id == snapshot_id
                }) ==> listed.contains(c.archives[i]) && c.archives[i].created_at <= listed[0].created_at
            &&& forall|k: int, l: int|
                0 <= k < l < listed.len() ==> {
                    ||| (#[trigger] listed[k]).created_at > (#[trigger] listed[l]).created_at
                    ||| listed[k].created_at == listed[l].created_at && listed[k].id > listed[l].id
                }
        }),
{
    broadcast use vstd::seq_lib::group_to_multiset_ensures;

    let p = |x: ArchiveView| x.snapshot_id == snapshot_id;
    let time = |x: ArchiveView| x.created_at;
    let places = lemma_listed(c.archives, p, time);
    let listed = archives_listed(c.archives, snapshot_id);
    let mine = c.archives.filter(p);
    assert forall|k: int, l: int| 0 <= k < l < listed.len() implies {
        ||| (#[trigger] listed[k]).created_at > (#[trigger] listed[l]).created_at
        ||| listed[k].created_at == listed[l].created_at && listed[k].id > listed[l].id
    } by {
        assert(c.archives[places[k]] == listed[k] && c.archives[places[l]] == listed[l]);
        assert(c.archives[places[k]].id > c.archives[places[l]].id || listed[k].created_at
            > listed[l].created_at) by {
            if places[k] > places[l] {
                assert(c.archives[places[l]].id < c.archives[places[k]].id);
            }
        }
    }
    assert forall|k: int| 0 <= k < listed.len() implies c.archives.contains(
        #[trigger] listed[k],
    ) && p(listed[k]) by {
        assert(c.archives[places[k]] == listed[k]);
    }
    assert forall|i: int| 0 <= i < c.archives.len() && p(#[trigger] c.archives[i]) implies listed.contains(
        c.archives[i],
    ) && c.archives[i].created_at <= listed[0].created_at by {
        let x = c.archives[i];
        kept_is_filtered(c.archives, p);
        kept_contains(c.archives, p, x);
        assert(c.archives.contains(x));
        assert(mine.contains(x));
        assert(mine.to_multiset().count(x) > 0);
        assert(listed.to_multiset().count(x) > 0);
        assert(listed.contains(x));
        let k = choose|k: int| 0 <= k < listed.len() && listed[k] == x;
        if k > 0 {
            assert(listed[0].created_at >= listed[k].created_at);
        }
    }
}

/// Every device is listed once; none comes in front of one that was seen later.
pub proof fn law_devices_are_listed(c: CatalogView)
    ensures
        ({
            let listed = devices_listed(c.devices);
            let mine = c.devices.filter(|x: DeviceView| true);
            &&& listed.to_multiset() == mine.to_multiset()
            &&& listed.len() == mine.len()
            &&& forall|k: int|
                0 <= k < listed.len() ==> c.devices.contains(#[trigger] listed[k]) && ({
                    let x = listed[k];
                    true
                })
            &&& forall|i: int|
                0 <= i < c.devices.len() && ({
                    let x = #[trigger] c.devices[i];
                    true
                }) ==> listed.contains(c.devices[i]) && c.devices[i].last_seen <= listed[0].last_seen
            &&& forall|k: int, l: int|
                0 <= k < l < listed.len() ==> (#[trigger] listed[k]).last_seen >= (
                #[trigger] listed[l]).last_seen
        }),
{
    broadcast use vstd::seq_lib::group_to_multiset_ensures;

    let p = |x: DeviceView| true;
    let time = |x: DeviceView| x.last_seen;
    let places = lemma_listed(c.devices, p, time);
    let listed = devices_listed(c.devices);
    let mine = c.devices.filter(p);
    assert forall|k: int, l: int| 0 <= k < l < listed.len() implies (#[trigger] listed[k]).last_seen >= (#[trigger] listed[l]).last_seen by {
        assert(c.devices[places[k]] == listed[k] && c.devices[places[l]] == listed[l]);
    }
    assert forall|k: int| 0 <= k < listed.len() implies c.devices.contains(
        #[trigger] listed[k],
    ) && p(listed[k]) by {
        assert(c.devices[places[k]] == listed[k]);
    }
    assert forall|i: int| 0 <= i < c.devices.len() && p(#[trigger] c.devices[i]) implies listed.contains(
        c.devices[i],
    ) && c.devices[i].last_seen <= listed[0].last_seen by {
        let x = c.devices[i];
        kept_is_filtered(c.devices, p);
        kept_contains(c.devices, p, x);
        assert(c.devices.contains(x));
        assert(mine.contains(x));
        assert(mine.to_multiset().count(x) > 0);
        assert(listed.to_multiset().count(x) > 0);
        assert(listed.contains(x));
        let k = choose|k: int| 0 <= k < listed.len() && listed[k] == x;
        if k > 0 {
            assert(listed[0].last_seen >= listed[k].last_seen);
        }
    }
}

/// The latest snapshot of a device, as it is handed out, is one of the device, and
/// none of the device was taken later; there is none just when the device has none.
pub proof fn law_latest_snapshot_is_latest(c: CatalogView, udid: Seq<char>, r: Option<SnapshotRecord>)
    requires
        c.wf(),
        first_is(snapshots_listed(c.snapshots, udid), r),
    ensures
        match r {
            Some(s) => {
                &&& c.snapshots.contains(s@)
                &&& s.udid@ == udid
                &&& forall|i: int|
                    0 <= i < c.snapshots.len() && (#[trigger] c.snapshots[i]).udid == udid
                        ==> c.snapshots[i].taken_at <= s.taken_at
            },
            None => forall|i: int|
                0 <= i < c.snapshots.len() ==> (#[trigger] c.snapshots[i]).udid != udid,
        },
{
    law_snapshots_are_listed(c, udid);
}

/// What is handed out as the first of a list is its first, and nothing only where
/// it has none.
pub proof fn law_first_is_first(rows: Seq<SnapshotView>, r: Option<SnapshotRecord>)
    ensures
        first_is(rows, r) <==> (match r {
            Some(s) => 0 < rows.len() && rows[0] == s@,
            None => rows == Seq::<SnapshotView>::empty(),
        }),
{
    if rows.len() == 0 {
        assert(rows =~= Seq::<SnapshotView>::empty());
    }
}

/// The words that kinds, statuses and states are kept as.
pub proof fn law_words()
    ensures
        RunKind::Backup.word() == "backup"@,
        RunKind::Restore.word() == "restore"@,
        RunStatus::Running.word() == "running"@,
        RunStatus::Succeeded.word() == "succeeded"@,
        RunStatus::Failed.word() == "failed"@,
        ArchiveState::Pending.word() == "pending"@,
        ArchiveState::Succeeded.word() == "succeeded"@,
        ArchiveState::Failed.word() == "failed"@,
{
}

/// Names are ordered by the first character in which they differ, and a name comes
/// in front of the longer ones it starts.
pub proof fn law_first_character_decides(a: Seq<char>, b: Seq<char>, n: int)
    requires
        0 <= n <= a.len(),
        n < b.len(),
        forall|i: int| 0 <= i < n ==> a[i] == b[i],
        n < a.len() ==> a[n] != b[n],
    ensures
        text_less(a, b) <==> n == a.len() || a[n] < b[n],
        text_less(b, a) <==> n < a.len() && b[n] < a[n],
    decreases n,
{
    if n > 0 {
        let x = a.skip(1);
        let y = b.skip(1);
        assert(a[0] == b[0]);
        assert forall|i: int| 0 <= i < n - 1 implies x[i] == y[i] by {
            assert(a[i + 1] == b[i + 1]);
        }
        assert(y[n - 1] == b[n]);
        if n < a.len() {
            assert(x[n - 1] == a[n]);
        }
        law_first_character_decides(x, y, n - 1);
    }
}

/// The destination found by a name has that name, and is the only one that does;
/// one is found just when there is one.
pub proof fn law_found_by_name(c: CatalogView, name: Seq<char>)
    requires
        c.wf(),
    ensures
        forall|i: int|
            0 <= i < c.destinations.len() && (#[trigger] c.destinations[i]).name == name ==> named(
                c.destinations,
                name,
            ) == Some(c.destinations[i]),
        named(c.destinations, name) matches Some(d) ==> d.name == name && c.destinations.contains(
            d,
        ),
{
    named_facts(c.destinations, name);
    assert forall|i: int|
        0 <= i < c.destinations.len() && (#[trigger] c.destinations[i]).name == name implies named(
        c.destinations,
        name,
    ) == Some(c.destinations[i]) by {
        assert(has_name(c.destinations, name));
        let d = named(c.destinations, name)->0;
        let j = choose|j: int| 0 <= j < c.destinations.len() && c.destinations[j] == d;
        if i < j {
            assert(c.destinations[i].name != c.destinations[j].name);
        } else if j < i {
            assert(c.destinations[j].name != c.destinations[i].name);
        }
    }
}

/// A device that was seen is there as it was seen, in its place or, where it was
/// not known, behind the others; no other device and no other table changes.
pub proof fn law_seen_device_reads_back(c: CatalogView, d: DeviceView)
    requires
        c.wf(),
    ensures
        ({
            let next = c.seen(d);
            &&& next.devices.contains(d)
            &&& forall|i: int|
                0 <= i < c.devices.len() ==> #[trigger] next.devices[i] == (if c.devices[i].udid
                    == d.udid {
                    d
                } else {
                    c.devices[i]
                })
            &&& next.devices.len() == c.devices.len() + (if has_device(c.devices, d.udid) {
                0int
            } else {
                1int
            })
            &&& !has_device(c.devices, d.udid) ==> next.devices.last() == d
            &&& next.runs == c.runs && next.snapshots == c.snapshots && next.destinations
                == c.destinations && next.archives == c.archives
        }),
{
    device_place_facts(c.devices, d.udid);
    let at = device_place(c.devices, d.udid) as int;
    let next = c.seen(d);
    assert(next.devices[at] == d);
    assert forall|i: int| 0 <= i < c.devices.len() implies #[trigger] next.devices[i] == (
    if c.devices[i].udid == d.udid {
        d
    } else {
        c.devices[i]
    }) by {
        if c.devices[i].udid == d.udid {
            assert(has_device(c.devices, d.udid));
            if i < at {
                assert(c.devices[i].udid != c.devices[at].udid);
            } else if at < i {
                assert(c.devices[at].udid != c.devices[i].udid);
            }
        }
    }
}

/// Ending a run changes that run alone, and of it only how it ended.
pub proof fn law_ending_changes_one_run(
    c: CatalogView,
    id: i64,
    now: i64,
    status: RunStatus,
    bytes: u64,
    files: u64,
    error: Option<Seq<char>>,
    i: int,
)
    requires
        0 <= i < c.runs.len(),
    ensures
        ({
            let next = c.run_ended(id, now, status, bytes, files, error);
            let r = c.runs[i];
            &&& next.runs.len() == c.runs.len()
            &&& r.id != id ==> next.runs[i] == r
            &&& r.id == id ==> next.runs[i] == (RunView {
                id,
                udid: r.udid,
                kind: r.kind,
                started_at: r.started_at,
                ended_at: Some(now),
                status: status.word(),
                bytes: Some(bytes as i64),
                files: Some(files as i64),
                error,
            })
            &&& next.devices == c.devices && next.snapshots == c.snapshots && next.destinations
                == c.destinations && next.archives == c.archives
        }),
{
}

/// Closing the abandoned runs of a device keeps all of each but its status, its end
/// and its error, and says why it failed.
pub proof fn law_abandoned_run_keeps_the_rest(c: CatalogView, udid: Seq<char>, now: i64, i: int)
    requires
        0 <= i < c.runs.len(),
    ensures
        ({
            let r = c.runs[i];
            c.runs_abandoned(udid, now).runs[i] == (if r.udid == udid && r.status == "running"@ {
                RunView {
                    ended_at: Some(now),
                    status: "failed"@,
                    error: Some("abandoned: process exited without finishing this run"@),
                    ..r
                }
            } else {
                r
            })
        }),
{
}

/// A snapshot that is recorded is there behind all others, of its device and run,
/// verified when it was taken or not at all; nothing else changes.
pub proof fn law_snapshot_reads_back(
    c: CatalogView,
    udid: Seq<char>,
    run_id: i64,
    size: u64,
    ios_version: Seq<char>,
    verified: bool,
    now: i64,
)
    ensures
        ({
            let next = c.taken(c.next_snapshot(udid, run_id, size, ios_version, verified, now));
            let s = next.snapshots.last();
            &&& next.snapshots.drop_last() == c.snapshots
            &&& s.udid == udid && s.run_id == run_id && s.taken_at == now && s.size == size as i64
                && s.ios_version == ios_version
            &&& s.verified_at == (if verified {
                Some(now)
            } else {
                None
            })
            &&& c.last_snapshot < i64::MAX ==> s.id == c.last_snapshot + 1 && next.last_snapshot
                == s.id
            &&& next.devices == c.devices && next.runs == c.runs && next.destinations
                == c.destinations && next.archives == c.archives
        }),
{
    let next = c.taken(c.next_snapshot(udid, run_id, size, ios_version, verified, now));
    assert(next.snapshots.drop_last() =~= c.snapshots);
}

/// Marking a snapshot verified changes only it, only where it was not verified, and
/// of it only that.
pub proof fn law_marking_changes_one_snapshot(c: CatalogView, id: i64, now: i64, i: int)
    requires
        0 <= i < c.snapshots.len(),
    ensures
        ({
            let s = c.snapshots[i];
            let next = c.marked_verified(id, now);
            &&& next.snapshots.len() == c.snapshots.len()
            &&& next.snapshots[i].verified_at == (match s.verified_at {
                Some(then) => Some(then),
                None => if s.id == id {
                    Some(now)
                } else {
                    None
                },
            })
            &&& next.snapshots[i] == (SnapshotView {
                verified_at: next.snapshots[i].verified_at,
                ..s
            })
            &&& next.runs == c.runs && next.devices == c.devices && next.archives == c.archives
                && next.destinations == c.destinations
        }),
{
}

/// A destination that is added is there behind all others, as it was given, with
/// nothing said of what it keeps; nothing else changes.
pub proof fn law_destination_reads_back(
    c: CatalogView,
    name: Seq<char>,
    kind: Seq<char>,
    uri: Seq<char>,
    credential_ref: Seq<char>,
)
    ensures
        ({
            let next = c.with_destination(name, kind, uri, credential_ref);
            let d = next.destinations.last();
            &&& next.destinations.drop_last() == c.destinations
            &&& d.name == name && d.kind == kind && d.uri == uri && d.credential_ref
                == credential_ref && d.retention_json is None
            &&& c.last_destination < i64::MAX ==> d.id == c.last_destination + 1
                && next.last_destination == d.id
            &&& next.devices == c.devices && next.runs == c.runs && next.snapshots == c.snapshots
                && next.archives == c.archives
        }),
{
    let next = c.with_destination(name, kind, uri, credential_ref);
    assert(next.destinations.drop_last() =~= c.destinations);
}

/// Setting what a destination keeps changes only it, and of it only that.
pub proof fn law_retention_changes_one_destination(
    c: CatalogView,
    id: i64,
    json: Seq<char>,
    i: int,
)
    requires
        0 <= i < c.destinations.len(),
    ensures
        ({
            let d = c.destinations[i];
            let next = c.with_retention(id, json);
            &&& next.destinations.len() == c.destinations.len()
            &&& next.destinations[i].retention_json == (if d.id == id {
                Some(json)
            } else {
                d.retention_json
            })
            &&& next.destinations[i] == (DestinationView {
                retention_json: next.destinations[i].retention_json,
                ..d
            })
            &&& next.runs == c.runs && next.devices == c.devices && next.archives == c.archives
                && next.snapshots == c.snapshots
        }),
{
}

/// An archive that is started and then ended is there behind all others, of its
/// snapshot and destination, with how it ended; it counts as verified only where it
/// succeeded, and nothing else changes.
pub proof fn law_archive_reads_back(
    c: CatalogView,
    snapshot_id: i64,
    destination_id: i64,
    now: i64,
    state: ArchiveState,
    restic_id: Option<Seq<char>>,
    error: Option<Seq<char>>,
    later: i64,
)
    requires
        c.wf(),
        c.last_archive < i64::MAX,
    ensures
        ({
            let open = c.archiving(snapshot_id, destination_id, now);
            let id = (c.last_archive + 1) as i64;
            let next = open.archive_closed(id, state, restic_id, error, later);
            &&& open.last_archive == id
            &&& open.archives.drop_last() == c.archives
            &&& open.archives.last() == (ArchiveView {
                id,
                snapshot_id,
                destination_id,
                restic_id: None,
                state: "pending"@,
                created_at: now,
                verified_at: None,
                error: None,
            })
            &&& next.archives.drop_last() == c.archives
            &&& next.archives.last() == (ArchiveView {
                id,
                snapshot_id,
                destination_id,
                restic_id,
                state: state.word(),
                created_at: now,
                verified_at: if state is Succeeded {
                    Some(later)
                } else {
                    None
                },
                error,
            })
            &&& next.devices == c.devices && next.runs == c.runs && next.snapshots == c.snapshots
                && next.destinations == c.destinations
        }),
{
    let open = c.archiving(snapshot_id, destination_id, now);
    let id = (c.last_archive + 1) as i64;
    let next = open.archive_closed(id, state, restic_id, error, later);
    assert(open.archives.drop_last() =~= c.archives);
    assert forall|i: int| 0 <= i < c.archives.len() implies next.archives[i]
        == #[trigger] c.archives[i] by {
        assert(c.archives[i].id <= c.last_archive);
    }
    assert(next.archives.drop_last() =~= c.archives);
}

/// Closing the abandoned archives of a snapshot fails those that were pending, says
/// why, and leaves every other archive as it was.
pub proof fn law_abandoned_archives_are_closed(c: CatalogView, snapshot_id: i64, i: int)
    requires
        0 <= i < c.archives.len(),
    ensures
        ({
            let a = c.archives[i];
            let next = c.archives_abandoned(snapshot_id);
            &&& next.archives.len() == c.archives.len()
            &&& next.archives[i] == (if a.snapshot_id == snapshot_id && a.state == "pending"@ {
                ArchiveView {
                    state: "failed"@,
                    error: Some("abandoned: process exited without finishing this archive"@),
                    ..a
                }
            } else {
                a
            })
            &&& next.devices == c.devices && next.runs == c.runs && next.snapshots == c.snapshots
                && next.destinations == c.destinations
        }),
{
}

/// A snapshot can be recorded just when its device and its run are known, as long as
/// there are numbers.
pub proof fn law_snapshot_fits(c: CatalogView, udid: Seq<char>, run_id: i64)
    requires
        c.last_snapshot < i64::MAX,
    ensures
        snapshot_fits(c, udid, run_id) <==> (exists|i: int|
            0 <= i < c.devices.len() && (#[trigger] c.devices[i]).udid == udid) && (exists|i: int|
            0 <= i < c.runs.len() && (#[trigger] c.runs[i]).id == run_id),
        snapshot_refusal(c, udid, run_id) == ErrorView::Catalog("FOREIGN KEY constraint failed"@),
{
}

/// What is known stays known: nothing that a row can be of is lost.
spec fn knows_as_much(c: CatalogView, next: CatalogView) -> bool {
    &&& forall|u: Seq<char>| #[trigger] has_device(c.devices, u) ==> has_device(next.devices, u)
    &&& forall|id: i64| #[trigger] has_run(c.runs, id) ==> has_run(next.runs, id)
    &&& forall|id: i64| #[trigger] has_snapshot(c.snapshots, id) ==> has_snapshot(next.snapshots, id)
    &&& forall|id: i64| #[trigger]
        has_destination(c.destinations, id) ==> has_destination(next.destinations, id)
}

/// Tables whose rows keep their numbers and what they are of know as much, and
/// stay linked.
proof fn unmoved_rows_stay_linked(c: CatalogView, next: CatalogView)
    requires
        c.linked(),
        c.devices == next.devices,
        c.runs.len() == next.runs.len(),
        c.snapshots.len() == next.snapshots.len(),
        c.destinations.len() == next.destinations.len(),
        c.archives.len() == next.archives.len(),
        forall|i: int|
            0 <= i < c.runs.len() ==> (#[trigger] next.runs[i]).id == c.runs[i].id
                && next.runs[i].udid == c.runs[i].udid,
        forall|i: int|
            0 <= i < c.snapshots.len() ==> (#[trigger] next.snapshots[i]).id == c.snapshots[i].id
                && next.snapshots[i].udid == c.snapshots[i].udid && next.snapshots[i].run_id
                == c.snapshots[i].run_id,
        forall|i: int|
            0 <= i < c.destinations.len() ==> (#[trigger] next.destinations[i]).id
                == c.destinations[i].id,
        forall|i: int|
            0 <= i < c.archives.len() ==> (#[trigger] next.archives[i]).snapshot_id
                == c.archives[i].snapshot_id && next.archives[i].destination_id
                == c.archives[i].destination_id,
    ensures
        knows_as_much(c, next),
        next.linked(),
{
    assert forall|id: i64| #[trigger] has_run(c.runs, id) implies has_run(next.runs, id) by {
        let k = choose|k: int| 0 <= k < c.runs.len() && (#[trigger] c.runs[k]).id == id;
        assert(next.runs[k].id == id);
    }
    assert forall|id: i64| #[trigger] has_snapshot(c.snapshots, id) implies has_snapshot(
        next.snapshots,
        id,
    ) by {
        let k = choose|k: int| 0 <= k < c.snapshots.len() && (#[trigger] c.snapshots[k]).id == id;
        assert(next.snapshots[k].id == id);
    }
    assert forall|id: i64| #[trigger] has_destination(c.destinations, id) implies has_destination(
        next.destinations,
        id,
    ) by {
        let k = choose|k: int|
            0 <= k < c.destinations.len() && (#[trigger] c.destinations[k]).id == id;
        assert(next.destinations[k].id == id);
    }
    assert forall|i: int| 0 <= i < next.runs.len() implies has_device(
        next.devices,
        (#[trigger] next.runs[i]).udid,
    ) by {
        assert(has_device(c.devices, c.runs[i].udid));
    }
    assert forall|i: int| 0 <= i < next.snapshots.len() implies has_device(
        next.devices,
        (#[trigger] next.snapshots[i]).udid,
    ) && has_run(next.runs, next.snapshots[i].run_id) by {
        assert(has_device(c.devices, c.snapshots[i].udid));
        assert(has_run(c.runs, c.snapshots[i].run_id));
    }
    assert forall|i: int| 0 <= i < next.archives.len() implies has_snapshot(
        next.snapshots,
        (#[trigger] next.archives[i]).snapshot_id,
    ) && has_destination(next.destinations, next.archives[i].destination_id) by {
        assert(has_snapshot(c.snapshots, c.archives[i].snapshot_id));
        assert(has_destination(c.destinations, c.archives[i].destination_id));
    }
}

/// Where every row is of something that is there, closing, marking and changing
/// rows leaves it so.
pub proof fn law_changes_keep_references(
    c: CatalogView,
    run_id: i64,
    status: RunStatus,
    bytes: u64,
    files: u64,
    error: Option<Seq<char>>,
    udid: Seq<char>,
    archive_id: i64,
    state: ArchiveState,
    restic_id: Option<Seq<char>>,
    snapshot_id: i64,
    destination_id: i64,
    json: Seq<char>,
    now: i64,
)
    requires
        c.linked(),
    ensures
        c.run_ended(run_id, now, status, bytes, files, error).linked(),
        c.runs_abandoned(udid, now).linked(),
        c.archive_closed(archive_id, state, restic_id, error, now).linked(),
        c.archives_abandoned(snapshot_id).linked(),
        c.marked_verified(snapshot_id, now).linked(),
        c.with_retention(destination_id, json).linked(),
{
    unmoved_rows_stay_linked(c, c.run_ended(run_id, now, status, bytes, files, error));
    unmoved_rows_stay_linked(c, c.runs_abandoned(udid, now));
    unmoved_rows_stay_linked(c, c.archive_closed(archive_id, state, restic_id, error, now));
    unmoved_rows_stay_linked(c, c.archives_abandoned(snapshot_id));
    unmoved_rows_stay_linked(c, c.marked_verified(snapshot_id, now));
    unmoved_rows_stay_linked(c, c.with_retention(destination_id, json));
}

/// Where every row is of something that is there, adding a device, a run, a
/// snapshot, a destination or an archive leaves it so: each is added only where
/// what it is of is there.
pub proof fn law_additions_keep_references(
    c: CatalogView,
    device: DeviceView,
    udid: Seq<char>,
    kind: RunKind,
    snapshot: SnapshotView,
    name: Seq<char>,
    destination_kind: Seq<char>,
    uri: Seq<char>,
    credential_ref: Seq<char>,
    snapshot_id: i64,
    destination_id: i64,
    now: i64,
)
    requires
        c.linked(),
    ensures
        c.seen(device).linked(),
        has_device(c.devices, udid) ==> c.started(udid, kind, now).linked(),
        has_device(c.devices, snapshot.udid) && has_run(c.runs, snapshot.run_id) ==> c.taken(
            snapshot,
        ).linked(),
        c.with_destination(name, destination_kind, uri, credential_ref).linked(),
        has_snapshot(c.snapshots, snapshot_id) && has_destination(c.destinations, destination_id)
            ==> c.archiving(snapshot_id, destination_id, now).linked(),
{
    let seen = c.seen(device);
    device_place_facts(c.devices, device.udid);
    assert forall|u: Seq<char>| #[trigger] has_device(c.devices, u) implies has_device(
        seen.devices,
        u,
    ) by {
        let k = choose|k: int| 0 <= k < c.devices.len() && (#[trigger] c.devices[k]).udid == u;
        assert(seen.devices[k].udid == u);
    }
    added_rows_are_linked(c, seen);
    if has_device(c.devices, udid) {
        let next = c.started(udid, kind, now);
        assert forall|id: i64| #[trigger] has_run(c.runs, id) implies has_run(next.runs, id) by {
            let k = choose|k: int| 0 <= k < c.runs.len() && (#[trigger] c.runs[k]).id == id;
            assert(next.runs[k].id == id);
        }
        added_rows_are_linked(c, next);
    }
    if has_device(c.devices, snapshot.udid) && has_run(c.runs, snapshot.run_id) {
        let next = c.taken(snapshot);
        assert forall|id: i64| #[trigger] has_snapshot(c.snapshots, id) implies has_snapshot(
            next.snapshots,
            id,
        ) by {
            let k = choose|k: int|
                0 <= k < c.snapshots.len() && (#[trigger] c.snapshots[k]).id == id;
            assert(next.snapshots[k].id == id);
        }
        added_rows_are_linked(c, next);
    }
    let next = c.with_destination(name, destination_kind, uri, credential_ref);
    assert forall|id: i64| #[trigger] has_destination(c.destinations, id) implies has_destination(
        next.destinations,
        id,
    ) by {
        let k = choose|k: int|
            0 <= k < c.destinations.len() && (#[trigger] c.destinations[k]).id == id;
        assert(next.destinations[k].id == id);
    }
    added_rows_are_linked(c, next);
    if has_snapshot(c.snapshots, snapshot_id) && has_destination(c.destinations, destination_id) {
        added_rows_are_linked(c, c.archiving(snapshot_id, destination_id, now));
    }
}

/// Tables that grow at their ends stay linked where what is added is of
/// something that is there.
proof fn added_rows_are_linked(c: CatalogView, next: CatalogView)
    requires
        c.linked(),
        knows_as_much(c, next),
        forall|i: int|
            0 <= i < next.runs.len() ==> (i < c.runs.len() && (#[trigger] next.runs[i])
                == c.runs[i]) || has_device(next.devices, next.runs[i].udid),
        forall|i: int|
            0 <= i < next.snapshots.len() ==> (i < c.snapshots.len() && (
            #[trigger] next.snapshots[i]) == c.snapshots[i]) || (has_device(
                next.devices,
                next.snapshots[i].udid,
            ) && has_run(next.runs, next.snapshots[i].run_id)),
        forall|i: int|
            0 <= i < next.archives.len() ==> (i < c.archives.len() && (#[trigger] next.archives[i])
                == c.archives[i]) || (has_snapshot(next.snapshots, next.archives[i].snapshot_id)
                && has_destination(next.destinations, next.archives[i].destination_id)),
    ensures
        next.linked(),
{
    assert forall|i: int| 0 <= i < next.runs.len() implies has_device(
        next.devices,
        (#[trigger] next.runs[i]).udid,
    ) by {
        if i < c.runs.len() && next.runs[i] == c.runs[i] {
            assert(has_device(c.devices, c.runs[i].udid));
        }
    }
    assert forall|i: int| 0 <= i < next.snapshots.len() implies has_device(
        next.devices,
        (#[trigger] next.snapshots[i]).udid,
    ) && has_run(next.runs, next.snapshots[i].run_id) by {
        if i < c.snapshots.len() && next.snapshots[i] == c.snapshots[i] {
            assert(has_device(c.devices, c.snapshots[i].udid));
            assert(has_run(c.runs, c.snapshots[i].run_id));
        }
    }
    assert forall|i: int| 0 <= i < next.archives.len() implies has_snapshot(
        next.snapshots,
        (#[trigger] next.archives[i]).snapshot_id,
    ) && has_destination(next.destinations, next.archives[i].destination_id) by {
        if i < c.archives.len() && next.archives[i] == c.archives[i] {
            assert(has_snapshot(c.snapshots, c.archives[i].snapshot_id));
            assert(has_destination(c.destinations, c.archives[i].destination_id));
        }
    }
}

/// Where every row is of something that is there, removing a destination leaves
/// it so: its archives go with it.
pub proof fn law_removal_keeps_references(c: CatalogView, id: i64)
    requires
        c.linked(),
    ensures
        c.without_destination(id).linked(),
{
    let next = c.without_destination(id);
    let keeps_a = |a: ArchiveView| a.destination_id != id;
    let keeps_d = |d: DestinationView| d.id != id;
    let fa = kept_from(c.archives, keeps_a);
    assert forall|i: int| 0 <= i < next.runs.len() implies has_device(
        next.devices,
        (#[trigger] next.runs[i]).udid,
    ) by {
        assert(has_device(c.devices, c.runs[i].udid));
    }
    assert forall|i: int| 0 <= i < next.snapshots.len() implies has_device(
        next.devices,
        (#[trigger] next.snapshots[i]).udid,
    ) && has_run(next.runs, next.snapshots[i].run_id) by {
        assert(has_device(c.devices, c.snapshots[i].udid));
    }
    assert forall|i: int| 0 <= i < next.archives.len() implies has_snapshot(
        next.snapshots,
        (#[trigger] next.archives[i]).snapshot_id,
    ) && has_destination(next.destinations, next.archives[i].destination_id) by {
        let a = c.archives[fa[i]];
        assert(has_snapshot(c.snapshots, a.snapshot_id));
        assert(has_destination(c.destinations, a.destination_id));
        let k = choose|k: int|
            0 <= k < c.destinations.len() && (#[trigger] c.destinations[k]).id
                == a.destination_id;
        kept_contains(c.destinations, keeps_d, c.destinations[k]);
        assert(c.destinations.contains(c.destinations[k]));
        assert(next.destinations.contains(c.destinations[k]));
        let m = choose|m: int|
            0 <= m < next.destinations.len() && next.destinations[m] == c.destinations[k];
        assert(next.destinations[m].id == a.destination_id);
    }
}

/// A last number is raised no further than to the greatest number that a row has.
pub proof fn law_raised_no_further(v: CatalogView)
    ensures
        v.raised().last_run == v.last_run || exists|i: int|
            0 <= i < v.runs.len() && (#[trigger] v.runs[i]).id == v.raised().last_run,
        v.raised().last_snapshot == v.last_snapshot || exists|i: int|
            0 <= i < v.snapshots.len() && (#[trigger] v.snapshots[i]).id
                == v.raised().last_snapshot,
        v.raised().last_destination == v.last_destination || exists|i: int|
            0 <= i < v.destinations.len() && (#[trigger] v.destinations[i]).id
                == v.raised().last_destination,
        v.raised().last_archive == v.last_archive || exists|i: int|
            0 <= i < v.archives.len() && (#[trigger] v.archives[i]).id
                == v.raised().last_archive,
{
    let runs = v.runs.map_values(|r: RunView| r.id);
    let snapshots = v.snapshots.map_values(|s: SnapshotView| s.id);
    let destinations = v.destinations.map_values(|d: DestinationView| d.id);
    let archives = v.archives.map_values(|a: ArchiveView| a.id);
    lemma_greatest(runs, v.last_run);
    lemma_greatest(snapshots, v.last_snapshot);
    lemma_greatest(destinations, v.last_destination);
    lemma_greatest(archives, v.last_archive);
    if v.raised().last_run != v.last_run {
        let k = choose|k: int| 0 <= k < runs.len() && runs[k] == v.raised().last_run;
        assert(v.runs[k].id == v.raised().last_run);
    }
    if v.raised().last_snapshot != v.last_snapshot {
        let k = choose|k: int|
            0 <= k < snapshots.len() && snapshots[k] == v.raised().last_snapshot;
        assert(v.snapshots[k].id == v.raised().last_snapshot);
    }
    if v.raised().last_destination != v.last_destination {
        let k = choose|k: int|
            0 <= k < destinations.len() && destinations[k] == v.raised().last_destination;
        assert(v.destinations[k].id == v.raised().last_destination);
    }
    if v.raised().last_archive != v.last_archive {
        let k = choose|k: int| 0 <= k < archives.len() && archives[k] == v.raised().last_archive;
        assert(v.archives[k].id == v.raised().last_archive);
    }
}

/// What the catalog refuses, it refuses in these words; and a row is seen as what it
/// holds.
pub proof fn law_refusals_and_rows(d: DeviceRecord, seen: i64)
    ensures
        reference_missing().text() == "catalog error: "@ + "FOREIGN KEY constraint failed"@,
        table_full().text() == "catalog error: "@ + "database or disk is full"@,
        name_taken().text() == "catalog error: "@
            + "UNIQUE constraint failed: destinations.name"@,
        device_seen(d, seen).udid == d.udid@,
        device_seen(d, seen).name == d.name@,
        device_seen(d, seen).product_type == d.product_type@,
        device_seen(d, seen).ios_version == d.ios_version@,
        device_seen(d, seen).encrypted == d.encrypted,
        device_seen(d, seen).last_seen == seen,
{
}

/// Tables hold their rows, each kind its own, and the last numbers of each.
pub proof fn law_tables_hold_their_rows(
    devices: Seq<DeviceRow>,
    runs: Seq<RunRecord>,
    snapshots: Seq<SnapshotRecord>,
    destinations: Seq<DestinationRecord>,
    archives: Seq<ArchiveRecord>,
    last: LastNumbers,
    i: int,
)
    ensures
        ({
            let t = tables(devices, runs, snapshots, destinations, archives, last);
            &&& t.devices.len() == devices.len() && t.runs.len() == runs.len()
                && t.snapshots.len() == snapshots.len() && t.destinations.len()
                == destinations.len() && t.archives.len() == archives.len()
            &&& 0 <= i < devices.len() ==> t.devices[i] == devices[i]@
            &&& 0 <= i < runs.len() ==> t.runs[i] == runs[i]@
            &&& 0 <= i < snapshots.len() ==> t.snapshots[i] == snapshots[i]@
            &&& 0 <= i < destinations.len() ==> t.destinations[i] == destinations[i]@
            &&& 0 <= i < archives.len() ==> t.archives[i] == archives[i]@
            &&& t.last_run == last.run
            &&& t.last_snapshot == last.snapshot
            &&& t.last_destination == last.destination
            &&& t.last_archive == last.archive
        }),
{
}

/// A row is seen with all that it holds.
pub proof fn law_rows_are_seen_whole(
    r: RunRecord,
    s: SnapshotRecord,
    d: DestinationRecord,
    a: ArchiveRecord,
)
    ensures
        r@.id == r.id && r@.udid == r.udid@ && r@.kind == r.kind@ && r@.started_at == r.started_at
            && r@.ended_at == r.ended_at && r@.status == r.status@ && r@.bytes == r.bytes
            && r@.files == r.files && r@.error == maybe(r.error),
        s@.id == s.id && s@.udid == s.udid@ && s@.run_id == s.run_id && s@.taken_at == s.taken_at
            && s@.size == s.size && s@.ios_version == s.ios_version@ && s@.verified_at
            == s.verified_at,
        d@.id == d.id && d@.name == d.name@ && d@.kind == d.kind@ && d@.uri == d.uri@
            && d@.credential_ref == d.credential_ref@ && d@.retention_json == maybe(
            d.retention_json,
        ),
        a@.id == a.id && a@.snapshot_id == a.snapshot_id && a@.destination_id == a.destination_id
            && a@.restic_id == maybe(a.restic_id) && a@.state == a.state@ && a@.created_at
            == a.created_at && a@.verified_at == a.verified_at && a@.error == maybe(a.error),
{
}

} // verus!
