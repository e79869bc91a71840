//! What the `libimobiledevice` tools print, and what it means: the attached
//! devices, their lockdown values, and the live output of a transfer.
use vstd::prelude::*;
use vstd::utf8::{decode_utf8, valid_utf8};

use crate::binary64::{float_of, float_times, read_float};
use crate::error::{CradleError, ErrorView};
use crate::text::{
    begins, chars_of, contains, decimal, ends, ends_with, find, is_digit, is_white,
    law_find_is_first, law_numerals_read_back, law_rfind_is_last, law_strip, law_words, lines,
    lines_of, mentions, occurs_at, parse_u64, part, rfind, rfind_in, same_text, split_at_first,
    split_once, starts_with, strip_prefix, strip_suffix, texts, texts_push, trim, trimmed, unsigned,
    without_prefix, without_suffix, words, words_of,
};

verus! {

broadcast use texts_push;

// --- captured output ---------------------------------------------------------------

/// The text that bytes read as, with a replacement character where they are
/// not UTF-8.
pub uninterp spec fn utf8_lossy(bytes: Seq<u8>) -> Seq<char>;

/// Calls `String::from_utf8_lossy`: the text depends on the bytes alone, and is
/// what they encode where they are UTF-8.
#[verifier::external_body]
pub(crate) fn lossy_text(bytes: &[u8]) -> (s: String)
    ensures
        s@ == utf8_lossy(bytes@),
        valid_utf8(bytes@) ==> s@ == decode_utf8(bytes@),
{
    String::from_utf8_lossy(bytes).into_owned()
}

/// How a tool that ran to its end left off.
#[derive(Debug)]
pub struct Capture {
    /// Whether it exited with success.
    pub ok: bool,
    /// What it printed, without white space at either end.
    pub stdout: String,
    /// What it printed as errors, without white space at either end.
    pub stderr: String,
}

/// Takes in how a tool ended and what it printed.
pub fn captured(ok: bool, stdout: &[u8], stderr: &[u8]) -> (c: Capture)
    ensures
        c.ok == ok,
        c.stdout@ == trim(utf8_lossy(stdout@)),
        c.stderr@ == trim(utf8_lossy(stderr@)),
{
    Capture {
        ok,
        stdout: trimmed(lossy_text(stdout).as_str()),
        stderr: trimmed(lossy_text(stderr).as_str()),
    }
}

/// What is said when one of the tools is not installed.
pub fn tool_missing(e: &CradleError) -> (r: CradleError)
    ensures
        r@ == ErrorView::Other(
            e@.text() + " — install libimobiledevice with `brew install libimobiledevice`"@,
        ),
{
    CradleError::Other(
        e.message().concat(" — install libimobiledevice with `brew install libimobiledevice`"),
    )
}

/// What a tool that failed said: its errors, or its output where it printed none.
pub open spec fn complaint(c: Capture) -> Seq<char> {
    if c.stderr@.len() == 0 {
        c.stdout@
    } else {
        c.stderr@
    }
}

/// What a tool that failed said.
fn complaint_of(c: Capture) -> (s: String)
    ensures
        s@ == complaint(c),
{
    if same_text(c.stderr.as_str(), "") {
        proof {
            reveal_strlit("");
        }
        c.stdout
    } else {
        proof {
            reveal_strlit("");
            assert(c.stderr@.len() == 0 ==> c.stderr@ =~= ""@);
        }
        c.stderr
    }
}

// --- devices --------------------------------------------------------------------------

/// How a device is attached.
#[derive(Debug, Clone, Copy, PartialEq, Eq, Structural)]
pub enum Transport {
    Usb,
    Network,
}

/// A device that is attached.
#[derive(Debug, Clone)]
pub struct AttachedDevice {
    pub udid: String,
    pub transport: Transport,
}

/// The devices as pairs of identifier and transport.
pub open spec fn device_views(d: Seq<AttachedDevice>) -> Seq<(Seq<char>, Transport)> {
    d.map_values(|x: AttachedDevice| (x.udid@, x.transport))
}

/// The lines that are not blank, trimmed.
pub open spec fn filled(ls: Seq<Seq<char>>) -> Seq<Seq<char>>
    decreases ls.len(),
{
    if ls.len() == 0 {
        seq![]
    } else {
        let rest = filled(ls.drop_last());
        if trim(ls.last()).len() == 0 {
            rest
        } else {
            rest.push(trim(ls.last()))
        }
    }
}

/// The identifiers that are not among `known`.
pub open spec fn others(ids: Seq<Seq<char>>, known: Seq<Seq<char>>) -> Seq<Seq<char>>
    decreases ids.len(),
{
    if ids.len() == 0 {
        seq![]
    } else {
        let rest = others(ids.drop_last(), known);
        if known.contains(ids.last()) {
            rest
        } else {
            rest.push(ids.last())
        }
    }
}

/// Every device of the two listings: those on USB as listed, then those on the
/// network that are not on USB too.
pub open spec fn listed(usb: Seq<char>, network: Seq<char>) -> Seq<(Seq<char>, Transport)> {
    let wired = filled(lines(usb));
    wired.map_values(|u: Seq<char>| (u, Transport::Usb)) + others(
        filled(lines(network)),
        wired,
    ).map_values(|u: Seq<char>| (u, Transport::Network))
}

/// The lines of `s` that are not blank, trimmed.
fn filled_lines(s: &str) -> (out: Vec<String>)
    ensures
        texts(out@) == filled(lines(s@)),
{
    let all = lines_of(s);
    let mut out: Vec<String> = Vec::new();
    let mut i: usize = 0;
    assert(texts(out@) =~= seq![]);
    while i < all.len()
        invariant
            i <= all@.len(),
            texts(all@) == lines(s@),
            texts(out@) == filled(texts(all@).take(i as int)),
        decreases all@.len() - i,
    {
        let line = trimmed(all[i].as_str());
        proof {
            let now = texts(all@).take(i + 1);
            assert(now.drop_last() =~= texts(all@).take(i as int));
            assert(now.last() == all@[i as int]@);
        }
        if line.as_str().unicode_len() > 0 {
            out.push(line);
        }
        i = i + 1;
    }
    assert(texts(all@).take(i as int) =~= texts(all@));
    out
}

/// Lists every attached device from what `idevice_id -l` and `idevice_id -n`
/// printed. A device on both is listed once, as on USB.
pub fn list_devices(usb: &str, network: &str) -> (devices: Vec<AttachedDevice>)
    ensures
        device_views(devices@) == listed(usb@, network@),
{
    let wired = filled_lines(usb);
    let wireless = filled_lines(network);
    let mut devices: Vec<AttachedDevice> = Vec::new();
    let mut i: usize = 0;
    let ghost usb_view = |u: Seq<char>| (u, Transport::Usb);
    let ghost net_view = |u: Seq<char>| (u, Transport::Network);
    while i < wired.len()
        invariant
            i <= wired@.len(),
            device_views(devices@) == texts(wired@).take(i as int).map_values(usb_view),
            usb_view == (|u: Seq<char>| (u, Transport::Usb)),
        decreases wired@.len() - i,
    {
        let device = AttachedDevice { udid: wired[i].clone(), transport: Transport::Usb };
        proof {
            assert(device_views(devices@.push(device)) =~= device_views(devices@).push(
                (device.udid@, device.transport),
            ));
            assert(texts(wired@).take(i + 1) =~= texts(wired@).take(i as int).push(
                wired@[i as int]@,
            ));
            assert(texts(wired@).take(i + 1).map_values(usb_view) =~= texts(wired@).take(
                i as int,
            ).map_values(usb_view).push((wired@[i as int]@, Transport::Usb)));
        }
        devices.push(device);
        i = i + 1;
    }
    assert(texts(wired@).take(i as int) =~= texts(wired@));
    let ghost first = device_views(devices@);
    let ghost known = texts(wired@);
    let mut j: usize = 0;
    assert(first + Seq::<Seq<char>>::empty().map_values(net_view) =~= first);
    while j < wireless.len()
        invariant
            j <= wireless@.len(),
            known == texts(wired@),
            device_views(devices@) == first + others(
                texts(wireless@).take(j as int),
                known,
            ).map_values(net_view),
            net_view == (|u: Seq<char>| (u, Transport::Network)),
        decreases wireless@.len() - j,
    {
        let seen = holds_text(&wired, wireless[j].as_str());
        proof {
            let now = texts(wireless@).take(j + 1);
            assert(now.drop_last() =~= texts(wireless@).take(j as int));
            assert(now.last() == wireless@[j as int]@);
        }
        if !seen {
            let device = AttachedDevice {
                udid: wireless[j].clone(),
                transport: Transport::Network,
            };
            proof {
                let before = others(texts(wireless@).take(j as int), known);
                assert(device_views(devices@.push(device)) =~= device_views(devices@).push(
                    (device.udid@, device.transport),
                ));
                assert(before.push(wireless@[j as int]@).map_values(net_view)
                    =~= before.map_values(net_view).push(
                    (wireless@[j as int]@, Transport::Network),
                ));
            }
            devices.push(device);
        }
        j = j + 1;
    }
    assert(texts(wireless@).take(j as int) =~= texts(wireless@));
    devices
}

/// Whether `s` is among `v`.
pub fn holds_text(v: &Vec<String>, s: &str) -> (r: bool)
    ensures
        r == texts(v@).contains(s@),
{
    let mut i: usize = 0;
    while i < v.len()
        invariant
            i <= v@.len(),
            forall|k: int| 0 <= k < i ==> texts(v@)[k] != s@,
        decreases v@.len() - i,
    {
        if same_text(v[i].as_str(), s) {
            assert(texts(v@)[i as int] == s@);
            return true;
        }
        assert(texts(v@)[i as int] == v@[i as int]@);
        i = i + 1;
    }
    false
}

/// A device on USB is listed as such, and on the network only if it is not on
/// USB: no identifier is listed with both transports.
pub proof fn law_usb_wins(usb: Seq<char>, network: Seq<char>, i: int, j: int)
    requires
        0 <= i < listed(usb, network).len(),
        0 <= j < listed(usb, network).len(),
        listed(usb, network)[i].0 == listed(usb, network)[j].0,
    ensures
        listed(usb, network)[i].1 == listed(usb, network)[j].1,
{
    let wired = filled(lines(usb));
    let wireless = filled(lines(network));
    others_are_not_known(wireless, wired);
    let n = wired.len();
    assert forall|k: int| 0 <= k < n implies #[trigger] listed(usb, network)[k] == (
        wired[k],
        Transport::Usb,
    ) by {}
    assert forall|k: int| n <= k < listed(usb, network).len() implies #[trigger] listed(
        usb,
        network,
    )[k] == (others(wireless, wired)[k - n], Transport::Network) by {}
    if i < n && j >= n {
        assert(wired.contains(wired[i]));
        assert(!wired.contains(others(wireless, wired)[j - n]));
    }
    if j < n && i >= n {
        assert(wired.contains(wired[j]));
        assert(!wired.contains(others(wireless, wired)[i - n]));
    }
}

/// What is left of a listing is not among the known ones.
proof fn others_are_not_known(ids: Seq<Seq<char>>, known: Seq<Seq<char>>)
    ensures
        forall|k: int|
            0 <= k < others(ids, known).len() ==> !known.contains(#[trigger] others(ids, known)[k]),
    decreases ids.len(),
{
    if ids.len() > 0 {
        others_are_not_known(ids.drop_last(), known);
        let rest = others(ids.drop_last(), known);
        assert forall|k: int| 0 <= k < others(ids, known).len() implies !known.contains(
            #[trigger] others(ids, known)[k],
        ) by {
            if k < rest.len() {
                assert(others(ids, known)[k] == rest[k]);
            }
        }
    }
}

// --- lockdown values -------------------------------------------------------------------

/// The arguments that make `ideviceinfo` print one value.
pub fn info_value_args(udid: &str, domain: Option<&str>, key: &str) -> (args: Vec<String>)
    ensures
        texts(args@) == (match domain {
            Some(d) => seq!["-u"@, udid@, "-q"@, d@, "-k"@, key@],
            None => seq!["-u"@, udid@, "-k"@, key@],
        }),
{
    let mut args: Vec<String> = vec!["-u".to_owned(), udid.to_owned()];
    if let Some(d) = domain {
        args.push("-q".to_owned());
        args.push(d.to_owned());
    }
    args.push("-k".to_owned());
    args.push(key.to_owned());
    assert(texts(args@) =~= (match domain {
        Some(d) => seq!["-u"@, udid@, "-q"@, d@, "-k"@, key@],
        None => seq!["-u"@, udid@, "-k"@, key@],
    }));
    args
}

/// What one printed value means: nothing printed says that there is none.
pub fn info_value(c: Capture) -> (r: Result<Option<String>, CradleError>)
    ensures
        match r {
            Ok(Some(v)) => c.ok && v@ == c.stdout@ && c.stdout@.len() > 0,
            Ok(None) => c.ok && c.stdout@.len() == 0,
            Err(e) => !c.ok && e@ == ErrorView::ToolFailed(complaint(c)),
        },
{
    if !c.ok {
        return Err(CradleError::ToolFailed(complaint_of(c)));
    }
    if c.stdout.as_str().unicode_len() == 0 {
        Ok(None)
    } else {
        Ok(Some(c.stdout))
    }
}

/// A yes-or-no value: `default` where it could not be read or is not there.
pub open spec fn bool_value(v: Result<Option<String>, CradleError>, default: bool) -> bool {
    match v {
        Ok(Some(s)) => s@ == "true"@,
        _ => default,
    }
}

/// A yes-or-no value: `default` where it could not be read or is not there.
pub fn info_bool(v: &Result<Option<String>, CradleError>, default: bool) -> (r: bool)
    ensures
        r == bool_value(*v, default),
{
    match v {
        Ok(Some(s)) => same_text(s.as_str(), "true"),
        _ => default,
    }
}

/// Whether backups are encrypted, from the `WillEncrypt` value: no, where that
/// is not known.
pub fn will_encrypt(v: &Result<Option<String>, CradleError>) -> (r: bool)
    ensures
        r == bool_value(*v, false),
{
    info_bool(v, false)
}

/// Whether Find My is linked to an account, from the `IsAssociated` value:
/// yes, where that is not known.
pub fn find_my_associated(v: &Result<Option<String>, CradleError>) -> (r: bool)
    ensures
        r == bool_value(*v, true),
{
    info_bool(v, true)
}

/// Bytes free on the device, from the `AmountDataAvailable` value: unknown
/// where it could not be read.
pub fn available_disk_space(v: &Result<Option<String>, CradleError>) -> (r: Option<u64>)
    ensures
        match *v {
            Ok(Some(s)) => match r {
                Some(n) => unsigned(s@, u64::MAX as nat) == Some(n as nat),
                None => unsigned(s@, u64::MAX as nat) is None,
            },
            _ => r is None,
        },
{
    match v {
        Ok(Some(s)) => parse_u64(s.as_str()),
        _ => None,
    }
}

/// Every value of the root domain, as printed.
pub fn info_domain(c: Capture) -> (r: Result<String, CradleError>)
    ensures
        match r {
            Ok(s) => c.ok && s@ == c.stdout@,
            Err(e) => !c.ok && e@ == ErrorView::ToolFailed(complaint(c)),
        },
{
    if c.ok {
        Ok(c.stdout)
    } else {
        Err(CradleError::ToolFailed(complaint_of(c)))
    }
}

/// What follows `key: ` in the first of `ls` that starts with it.
pub open spec fn value_in(ls: Seq<Seq<char>>, key: Seq<char>) -> Option<Seq<char>>
    decreases ls.len(),
{
    if ls.len() == 0 {
        None
    } else {
        match strip_prefix(ls[0], key + ": "@) {
            Some(v) => Some(v),
            None => value_in(ls.skip(1), key),
        }
    }
}

/// The value of `key` in a printed domain: what follows `key: ` on the first
/// line that starts so.
pub fn domain_value(domain: &str, key: &str) -> (r: Option<String>)
    ensures
        match r {
            Some(v) => value_in(lines(domain@), key@) == Some(v@),
            None => value_in(lines(domain@), key@) is None,
        },
{
    let prefix = key.to_owned().concat(": ");
    let all = lines_of(domain);
    let ghost ls = lines(domain@);
    let mut i: usize = 0;
    assert(ls.skip(0) =~= ls);
    while i < all.len()
        invariant
            i <= all@.len(),
            texts(all@) == ls,
            prefix@ == key@ + ": "@,
            ls == lines(domain@),
            value_in(ls, key@) == value_in(ls.skip(i as int), key@),
        decreases all@.len() - i,
    {
        assert(ls.skip(i as int)[0] == texts(all@)[i as int]);
        assert(texts(all@)[i as int] == all@[i as int]@);
        match without_prefix(all[i].as_str(), prefix.as_str()) {
            Some(v) => {
                return Some(v);
            },
            None => {},
        }
        assert(ls.skip(i as int).skip(1) =~= ls.skip(i + 1));
        i = i + 1;
    }
    None
}

/// What identifies a device to a person.
#[derive(Debug, Clone)]
pub struct DeviceInfo {
    pub udid: String,
    pub name: String,
    pub product_type: String,
    pub ios_version: String,
}

/// The value of `key`, or nothing.
pub open spec fn value_or_blank(domain: Seq<char>, key: Seq<char>) -> Seq<char> {
    match value_in(lines(domain), key) {
        Some(v) => v,
        None => seq![],
    }
}

/// The value of `key`, or nothing.
fn value_or_empty(domain: &str, key: &str) -> (s: String)
    ensures
        s@ == value_or_blank(domain@, key@),
{
    match domain_value(domain, key) {
        Some(v) => v,
        None => String::new(),
    }
}

/// Reads what identifies a device off its printed root domain; a value that is
/// not there is left blank.
pub fn device_info(udid: &str, domain: &str) -> (info: DeviceInfo)
    ensures
        info.udid@ == udid@,
        info.name@ == value_or_blank(domain@, "DeviceName"@),
        info.product_type@ == value_or_blank(domain@, "ProductType"@),
        info.ios_version@ == value_or_blank(domain@, "ProductVersion"@),
{
    DeviceInfo {
        udid: udid.to_owned(),
        name: value_or_empty(domain, "DeviceName"),
        product_type: value_or_empty(domain, "ProductType"),
        ios_version: value_or_empty(domain, "ProductVersion"),
    }
}

/// Whether this Mac is paired with a device.
#[derive(Debug)]
pub struct PairingCheck {
    pub valid: bool,
    /// What to do about it, where it is not.
    pub message: Option<String>,
}

/// What an unpaired device is reported as.
pub open spec fn pairing_advice(detail: Seq<char>) -> Seq<char> {
    "No valid pairing record for this device — open it once with Finder or Xcode, unlock the device, and tap Trust. ("@
        + detail + ")"@
}

/// Reads the outcome of `idevicepair validate`.
pub fn check_pairing(c: Capture) -> (p: PairingCheck)
    ensures
        p.valid == c.ok,
        match p.message {
            None => c.ok,
            Some(m) => !c.ok && m@ == pairing_advice(complaint(c)),
        },
{
    if c.ok {
        PairingCheck { valid: true, message: None }
    } else {
        let detail = complaint_of(c);
        PairingCheck {
            valid: false,
            message: Some(
                "No valid pairing record for this device — open it once with Finder or Xcode, unlock the device, and tap Trust. (".to_owned().concat(
                    detail.as_str(),
                ).concat(")"),
            ),
        }
    }
}

// --- live output -----------------------------------------------------------------------

/// How many seconds of silence count as a stall.
pub const STALL_TIMEOUT_SECS: u64 = 300;

/// How many seconds lie between two looks at the silence.
pub const STALL_POLL_SECS: u64 = 15;

/// Whether a transfer that has printed nothing for `idle_secs` has stalled.
pub fn has_stalled(idle_secs: u64) -> (r: bool)
    ensures
        r == (idle_secs >= STALL_TIMEOUT_SECS),
{
    idle_secs >= STALL_TIMEOUT_SECS
}

/// Whether a byte ends a line.
pub open spec fn ends_line(b: u8) -> bool {
    b == 13 || b == 10
}

/// The lines that `bytes` complete behind the unfinished line `pending`, and
/// the line left unfinished. Blank lines are none.
pub open spec fn split_bytes(pending: Seq<u8>, bytes: Seq<u8>) -> (Seq<Seq<u8>>, Seq<u8>)
    decreases bytes.len(),
{
    if bytes.len() == 0 {
        (seq![], pending)
    } else {
        let (done, rest) = split_bytes(pending, bytes.drop_last());
        let b = bytes.last();
        if !ends_line(b) {
            (done, rest.push(b))
        } else if rest.len() == 0 {
            (done, rest)
        } else {
            (done.push(rest), seq![])
        }
    }
}

/// The texts of lines of bytes.
pub open spec fn lossy_lines(ls: Seq<Seq<u8>>) -> Seq<Seq<char>> {
    ls.map_values(|l: Seq<u8>| utf8_lossy(l))
}

/// How the output arrives in pieces does not matter: taking in `a` and then `b`
/// gives the lines of both together.
pub proof fn law_pieces_do_not_matter(pending: Seq<u8>, a: Seq<u8>, b: Seq<u8>)
    ensures
        split_bytes(pending, a + b) == ({
            let (done, rest) = split_bytes(pending, a);
            let (more, left) = split_bytes(rest, b);
            (done + more, left)
        }),
    decreases b.len(),
{
    let (done, rest) = split_bytes(pending, a);
    if b.len() == 0 {
        assert(a + b =~= a);
        assert(done + Seq::<Seq<u8>>::empty() =~= done);
    } else {
        law_pieces_do_not_matter(pending, a, b.drop_last());
        assert((a + b).drop_last() =~= a + b.drop_last());
        let (more, left) = split_bytes(rest, b.drop_last());
        assert(done + more.push(left) =~= (done + more).push(left));
    }
}

/// Parts output into lines as it arrives, at carriage returns and line feeds.
#[derive(Debug)]
pub struct LineSplitter {
    pending: Vec<u8>,
}

impl View for LineSplitter {
    type V = Seq<u8>;

    closed spec fn view(&self) -> Seq<u8> {
        self.pending@
    }
}

impl LineSplitter {
    /// A splitter that has taken in nothing.
    pub fn new() -> (s: LineSplitter)
        ensures
            s@ == Seq::<u8>::empty(),
    {
        LineSplitter { pending: Vec::new() }
    }

    /// Takes in the next bytes and hands out the lines they complete.
    pub fn feed(&mut self, bytes: &[u8]) -> (done: Vec<String>)
        ensures
            texts(done@) == lossy_lines(split_bytes(old(self)@, bytes@).0),
            final(self)@ == split_bytes(old(self)@, bytes@).1,
    {
        let ghost start = self@;
        let mut done: Vec<String> = Vec::new();
        let mut i: usize = 0;
        assert(texts(done@) =~= lossy_lines(seq![]));
        assert(bytes@.take(0) =~= seq![]);
        while i < bytes.len()
            invariant
                i <= bytes@.len(),
                texts(done@) == lossy_lines(split_bytes(start, bytes@.take(i as int)).0),
                self@ == split_bytes(start, bytes@.take(i as int)).1,
            decreases bytes@.len() - i,
        {
            let b: u8 = bytes[i];
            let ghost so_far = split_bytes(start, bytes@.take(i as int));
            proof {
                assert(bytes@.take(i + 1).drop_last() =~= bytes@.take(i as int));
                assert(bytes@.take(i + 1).last() == b);
            }
            if b == 13 || b == 10 {
                if self.pending.len() > 0 {
                    let line = lossy_text(self.pending.as_slice());
                    assert(lossy_lines(so_far.0.push(so_far.1)) =~= lossy_lines(so_far.0).push(
                        utf8_lossy(so_far.1),
                    ));
                    done.push(line);
                    self.pending = Vec::new();
                    assert(self.pending@ =~= seq![]);
                }
            } else {
                self.pending.push(b);
            }
            i = i + 1;
        }
        assert(bytes@.take(i as int) =~= bytes@);
        done
    }

    /// Hands out the line that the end of the output leaves unfinished.
    pub fn finish(self) -> (last: Option<String>)
        ensures
            match last {
                Some(s) => self@.len() > 0 && s@ == utf8_lossy(self@),
                None => self@.len() == 0,
            },
    {
        if self.pending.len() == 0 {
            None
        } else {
            Some(lossy_text(self.pending.as_slice()))
        }
    }
}

/// The last `cap` of `all`.
pub open spec fn last_of<T>(all: Seq<T>, cap: nat) -> Seq<T> {
    if all.len() <= cap {
        all
    } else {
        all.skip(all.len() - cap)
    }
}

/// Adds a line to the last `cap` lines, of which the first gives way where
/// there are that many already.
pub fn push_tail(tail: &mut Vec<String>, line: String, cap: usize)
    requires
        0 < cap,
        old(tail)@.len() <= cap,
    ensures
        final(tail)@ == last_of(old(tail)@.push(line), cap as nat),
        final(tail)@.len() <= cap,
{
    let ghost before = tail@;
    if tail.len() == cap {
        tail.remove(0);
    }
    tail.push(line);
    assert(tail@ =~= last_of(before.push(line), cap as nat));
}

/// Keeping a tail as lines come keeps the last lines of all that came.
pub proof fn law_tail_is_the_last_lines(all: Seq<String>, line: String, cap: nat)
    requires
        0 < cap,
    ensures
        last_of(last_of(all, cap).push(line), cap) == last_of(all.push(line), cap),
{
    assert(last_of(last_of(all, cap).push(line), cap) =~= last_of(all.push(line), cap));
}

/// How many lines of errors are kept.
pub const STDERR_TAIL_LINES: usize = 50;

// --- reading one line --------------------------------------------------------------------

/// The first of `ws` that is a numeral with a percent sign behind it.
pub open spec fn percent_in(ws: Seq<Seq<char>>) -> Option<Seq<char>>
    decreases ws.len(),
{
    if ws.len() == 0 {
        None
    } else {
        match strip_suffix(ws[0], "%"@) {
            Some(n) => if float_of(n) is Some {
                Some(n)
            } else {
                percent_in(ws.skip(1))
            },
            None => percent_in(ws.skip(1)),
        }
    }
}

/// The overall percentage that a line reports, as its numeral: only a line with
/// the word `Finished` reports one.
pub open spec fn overall_percent(line: Seq<char>) -> Option<Seq<char>> {
    if contains(line, "Finished"@) {
        percent_in(words(line))
    } else {
        None
    }
}

/// The overall percentage that a line reports, as its numeral.
pub fn parse_overall_percent(line: &str) -> (r: Option<String>)
    ensures
        match r {
            Some(n) => overall_percent(line@) == Some(n@),
            None => overall_percent(line@) is None,
        },
{
    if !mentions(line, "Finished") {
        return None;
    }
    let ws = words_of(line);
    let ghost all = words(line@);
    let mut i: usize = 0;
    assert(all.skip(0) =~= all);
    while i < ws.len()
        invariant
            i <= ws@.len(),
            texts(ws@) == all,
            all == words(line@),
            contains(line@, "Finished"@),
            percent_in(all) == percent_in(all.skip(i as int)),
        decreases ws@.len() - i,
    {
        assert(all.skip(i as int)[0] == texts(ws@)[i as int]);
        assert(texts(ws@)[i as int] == ws@[i as int]@);
        assert(all.skip(i as int).skip(1) =~= all.skip(i + 1));
        if let Some(n) = without_suffix(ws[i].as_str(), "%") {
            if read_float(n.as_str()).is_some() {
                return Some(n);
            }
        }
        i = i + 1;
    }
    None
}

/// The power of two that a unit of size stands for.
pub open spec fn unit_power(unit: Seq<char>) -> Option<nat> {
    if unit == "Bytes"@ {
        Some(0)
    } else if unit == "KB"@ {
        Some(10)
    } else if unit == "MB"@ {
        Some(20)
    } else if unit == "GB"@ {
        Some(30)
    } else if unit == "TB"@ {
        Some(40)
    } else {
        None
    }
}

/// The bytes that a size such as `1.2 MB` stands for: the binary number its
/// numeral reads as, times the unit, cut to a whole number.
pub open spec fn human_size(s: Seq<char>) -> Option<nat> {
    match split_once(s, " "@) {
        None => None,
        Some((number, unit)) => match (float_of(number), unit_power(unit)) {
            (Some(f), Some(k)) => Some(float_times(f, k)),
            _ => None,
        },
    }
}

/// The bytes that a size such as `1.2 MB` stands for.
pub fn parse_human_bytes(s: &str) -> (r: Option<u64>)
    ensures
        match r {
            Some(n) => human_size(s@) == Some(n as nat),
            None => human_size(s@) is None,
        },
{
    let (number, unit) = match split_at_first(s, " ") {
        Some(parts) => parts,
        None => return None,
    };
    let value = match read_float(number.as_str()) {
        Some(f) => f,
        None => return None,
    };
    let unit = unit.as_str();
    let k: u32 = if same_text(unit, "Bytes") {
        0
    } else if same_text(unit, "KB") {
        10
    } else if same_text(unit, "MB") {
        20
    } else if same_text(unit, "GB") {
        30
    } else if same_text(unit, "TB") {
        40
    } else {
        return None;
    };
    Some(value.times_power(k, Ghost(float_of(number@)->0)))
}

/// The bytes done and the bytes in all of the file that a line reports on, in
/// its last pair of round brackets.
pub open spec fn file_bytes(line: Seq<char>) -> Option<(nat, nat)> {
    match (rfind(line, '('), rfind(line, ')')) {
        (Some(start), Some(end)) => if end <= start {
            None
        } else {
            match split_once(line.subrange(start + 1, end), "/"@) {
                None => None,
                Some((done, total)) => match (human_size(trim(done)), human_size(trim(total))) {
                    (Some(d), Some(t)) => Some((d, t)),
                    _ => None,
                },
            }
        },
        _ => None,
    }
}

/// The bytes done and the bytes in all of the file that a line reports on.
pub fn parse_file_bytes(line: &str) -> (r: Option<(u64, u64)>)
    ensures
        match r {
            Some((d, t)) => file_bytes(line@) == Some((d as nat, t as nat)),
            None => file_bytes(line@) is None,
        },
{
    let v = chars_of(line);
    let start = match rfind_in(v.as_slice(), '(') {
        Some(i) => i,
        None => return None,
    };
    let end = match rfind_in(v.as_slice(), ')') {
        Some(i) => i,
        None => return None,
    };
    if end <= start {
        return None;
    }
    let inner = part(&v, start + 1, end);
    match split_at_first(inner.as_str(), "/") {
        None => None,
        Some((done, total)) => match (
            parse_human_bytes(trimmed(done.as_str()).as_str()),
            parse_human_bytes(trimmed(total.as_str()).as_str()),
        ) {
            (Some(d), Some(t)) => Some((d, t)),
            _ => None,
        },
    }
}

/// The size of the file that a restore announces it sends.
pub open spec fn sending_size(line: Seq<char>) -> Option<nat> {
    match strip_prefix(line, "Sending '"@) {
        None => None,
        Some(rest) => match split_once(rest, "' ("@) {
            None => None,
            Some((_, behind)) => match strip_suffix(behind, ")"@) {
                None => None,
                Some(size) => human_size(trim(size)),
            },
        },
    }
}

/// The size of the file that a restore announces it sends.
pub fn parse_sending_file(line: &str) -> (r: Option<u64>)
    ensures
        match r {
            Some(n) => sending_size(line@) == Some(n as nat),
            None => sending_size(line@) is None,
        },
{
    match without_prefix(line, "Sending '") {
        None => None,
        Some(rest) => match split_at_first(rest.as_str(), "' (") {
            None => None,
            Some((_, behind)) => match without_suffix(behind.as_str(), ")") {
                None => None,
                Some(size) => parse_human_bytes(trimmed(size.as_str()).as_str()),
            },
        },
    }
}

/// The number of files that the device reports to have sent in all.
pub open spec fn received_count(line: Seq<char>) -> Option<nat> {
    match strip_prefix(line, "Received "@) {
        None => None,
        Some(rest) => if words(rest).len() == 0 {
            None
        } else {
            unsigned(words(rest)[0], u64::MAX as nat)
        },
    }
}

/// The number of files that the device reports to have sent in all.
pub fn parse_received(line: &str) -> (r: Option<u64>)
    ensures
        match r {
            Some(n) => received_count(line@) == Some(n as nat),
            None => received_count(line@) is None,
        },
{
    match without_prefix(line, "Received ") {
        None => None,
        Some(rest) => {
            let ws = words_of(rest.as_str());
            assert(texts(ws@).len() == ws@.len());
            if ws.len() == 0 {
                None
            } else {
                assert(texts(ws@)[0] == ws@[0]@);
                parse_u64(ws[0].as_str())
            }
        },
    }
}

/// Whether `code` stands in `s` as a run of digits of its own.
pub open spec fn has_code(s: Seq<char>, code: Seq<char>) -> bool {
    exists|i: int| #[trigger] code_at(s, code, i)
}

/// Whether `code` stands in `s` at `i`, with no digit on either side.
pub open spec fn code_at(s: Seq<char>, code: Seq<char>, i: int) -> bool {
    &&& occurs_at(s, code, i)
    &&& i == 0 || !is_digit(s[i - 1])
    &&& i + code.len() == s.len() || !is_digit(s[i + code.len()])
}

/// The error that a failure message stands for.
pub open spec fn classified(message: Seq<char>) -> ErrorView {
    if has_code(message, seq!['2', '0', '8']) {
        ErrorView::DeviceLocked
    } else if has_code(message, seq!['1', '0', '4']) {
        ErrorView::HostIoError
    } else if has_code(message, seq!['2', '0', '7']) {
        ErrorView::WrongBackupPassword
    } else if contains(message, "Could not start service com.apple.mobilebackup2"@) {
        ErrorView::DeviceNotReadyForBackupService
    } else {
        ErrorView::ToolFailed(message)
    }
}

/// Whether the three-digit `code` stands in `v` as a run of digits of its own.
fn find_code(v: &Vec<char>, a: char, b: char, c: char) -> (r: bool)
    ensures
        r == has_code(v@, seq![a, b, c]),
{
    let ghost code = seq![a, b, c];
    let n: usize = v.len();
    let mut i: usize = 0;
    while i < n && 3 <= n - i
        invariant
            n == v@.len(),
            i <= n,
            code == seq![a, b, c],
            forall|k: int| 0 <= k < i ==> !#[trigger] code_at(v@, code, k),
        decreases n - i,
    {
        let here = v[i] == a && v[i + 1] == b && v[i + 2] == c;
        let left = i == 0 || !('0' <= v[i - 1] && v[i - 1] <= '9');
        let right = n - i == 3 || !('0' <= v[i + 3] && v[i + 3] <= '9');
        proof {
            let s = v@.subrange(i as int, i + 3);
            if here {
                assert(s =~= code);
            } else if s == code {
                assert(s[0] == a && s[1] == b && s[2] == c);
            }
        }
        if here && left && right {
            assert(code_at(v@, code, i as int));
            return true;
        }
        assert(!code_at(v@, code, i as int));
        i = i + 1;
    }
    false
}

/// The error that a failure message stands for.
pub fn classify_error(message: &str) -> (e: CradleError)
    ensures
        e@ == classified(message@),
{
    let v = chars_of(message);
    if find_code(&v, '2', '0', '8') {
        CradleError::DeviceLocked
    } else if find_code(&v, '1', '0', '4') {
        CradleError::HostIoError
    } else if find_code(&v, '2', '0', '7') {
        CradleError::WrongBackupPassword
    } else if mentions(message, "Could not start service com.apple.mobilebackup2") {
        CradleError::DeviceNotReadyForBackupService
    } else {
        CradleError::ToolFailed(message.to_owned())
    }
}

// --- what holds of what is read --------------------------------------------------------------

/// A failed tool is quoted by its errors, and by its output only where it printed no
/// errors.
pub proof fn law_errors_come_first(c: Capture)
    ensures
        c.stderr@.len() > 0 ==> complaint(c) == c.stderr@,
        c.stderr@.len() == 0 ==> complaint(c) == c.stdout@,
{
}

/// Of lines, those that are not blank are kept, trimmed and in order.
pub proof fn law_filled_lines(ls: Seq<Seq<char>>, line: Seq<char>)
    ensures
        filled(seq![]).len() == 0,
        trim(line).len() == 0 ==> filled(ls.push(line)) == filled(ls),
        trim(line).len() > 0 ==> filled(ls.push(line)) == filled(ls).push(trim(line)),
{
    assert(ls.push(line).drop_last() =~= ls);
}

/// What is kept of lines is the trimmed text of each that is not blank.
proof fn lemma_filled(ls: Seq<Seq<char>>, x: Seq<char>)
    ensures
        filled(ls).contains(x) <==> x.len() > 0 && exists|i: int|
            0 <= i < ls.len() && trim(#[trigger] ls[i]) == x,
    decreases ls.len(),
{
    if ls.len() > 0 {
        let before = ls.drop_last();
        let rest = filled(before);
        let t = trim(ls.last());
        lemma_filled(before, x);
        if filled(ls).contains(x) {
            let k = choose|k: int| 0 <= k < filled(ls).len() && filled(ls)[k] == x;
            if k < rest.len() {
                assert(rest[k] == x);
                assert(rest.contains(x));
                let i = choose|i: int| 0 <= i < before.len() && trim(#[trigger] before[i]) == x;
                assert(trim(ls[i]) == x);
            } else {
                assert(trim(ls[ls.len() - 1]) == x);
            }
        }
        if x.len() > 0 && exists|i: int| 0 <= i < ls.len() && trim(#[trigger] ls[i]) == x {
            let i = choose|i: int| 0 <= i < ls.len() && trim(#[trigger] ls[i]) == x;
            if i < before.len() {
                assert(trim(before[i]) == x);
                assert(rest.contains(x));
                let k = choose|k: int| 0 <= k < rest.len() && rest[k] == x;
                assert(filled(ls)[k] == x);
            } else {
                assert(filled(ls)[rest.len() as int] == x);
            }
        }
    }
}

/// What is left of a listing is what is not known.
proof fn lemma_others(ids: Seq<Seq<char>>, known: Seq<Seq<char>>, x: Seq<char>)
    ensures
        others(ids, known).contains(x) <==> ids.contains(x) && !known.contains(x),
    decreases ids.len(),
{
    if ids.len() > 0 {
        let before = ids.drop_last();
        let rest = others(before, known);
        let all = others(ids, known);
        lemma_others(before, known, x);
        if all.contains(x) {
            let k = choose|k: int| 0 <= k < all.len() && all[k] == x;
            if k < rest.len() {
                assert(rest[k] == x);
                assert(rest.contains(x));
                let i = choose|i: int| 0 <= i < before.len() && before[i] == x;
                assert(ids[i] == x);
            } else {
                assert(ids[ids.len() - 1] == x);
            }
        }
        if ids.contains(x) && !known.contains(x) {
            let i = choose|i: int| 0 <= i < ids.len() && ids[i] == x;
            if i < before.len() {
                assert(before[i] == x);
                assert(rest.contains(x));
                let k = choose|k: int| 0 <= k < rest.len() && rest[k] == x;
                assert(all[k] == x);
            } else {
                assert(all[rest.len() as int] == x);
            }
        }
    }
}

/// Every device that either tool printed is listed, and no other: on USB where that
/// tool printed it, and else on the network.
pub proof fn law_every_device_is_listed(usb: Seq<char>, network: Seq<char>, id: Seq<char>)
    ensures
        ({
            let on_usb = id.len() > 0 && exists|i: int|
                0 <= i < lines(usb).len() && trim(#[trigger] lines(usb)[i]) == id;
            let on_network = id.len() > 0 && exists|i: int|
                0 <= i < lines(network).len() && trim(#[trigger] lines(network)[i]) == id;
            &&& listed(usb, network).contains((id, Transport::Usb)) <==> on_usb
            &&& listed(usb, network).contains((id, Transport::Network)) <==> on_network && !on_usb
        }),
{
    let wired = filled(lines(usb));
    let wireless = filled(lines(network));
    let rest = others(wireless, wired);
    let all = listed(usb, network);
    lemma_filled(lines(usb), id);
    lemma_filled(lines(network), id);
    lemma_others(wireless, wired, id);
    let n = wired.len() as int;
    assert(all.len() == n + rest.len());
    assert(forall|k: int| 0 <= k < n ==> #[trigger] all[k] == (wired[k], Transport::Usb));
    assert(forall|k: int|
        n <= k < all.len() ==> #[trigger] all[k] == (rest[k - n], Transport::Network));
    if all.contains((id, Transport::Usb)) {
        let k = choose|k: int| 0 <= k < all.len() && all[k] == (id, Transport::Usb);
        assert(k < n);
        assert(wired[k] == id);
    }
    if wired.contains(id) {
        let k = choose|k: int| 0 <= k < wired.len() && wired[k] == id;
        assert(all[k] == (id, Transport::Usb));
    }
    if all.contains((id, Transport::Network)) {
        let k = choose|k: int| 0 <= k < all.len() && all[k] == (id, Transport::Network);
        assert(k >= n);
        assert(rest[k - n] == id);
    }
    if rest.contains(id) {
        let k = choose|k: int| 0 <= k < rest.len() && rest[k] == id;
        assert(all[n + k] == (id, Transport::Network));
    }
}

/// A yes-or-no value is yes just when it reads `true`; one that is not there, or could
/// not be read, is what is assumed.
pub proof fn law_yes_or_no(v: Result<Option<String>, CradleError>, default: bool)
    ensures
        v matches Ok(Some(s)) ==> (bool_value(v, default) <==> s@ == "true"@),
        v matches Ok(None) ==> bool_value(v, default) == default,
        v is Err ==> bool_value(v, default) == default,
{
}

/// The value of a key is what is behind it on the first line that starts with it and
/// a colon; it has none just when no line does.
pub proof fn law_first_value(ls: Seq<Seq<char>>, key: Seq<char>)
    ensures
        forall|i: int, v: Seq<char>|
            0 <= i < ls.len() && #[trigger] ls[i] == #[trigger] (key + ": "@ + v) && (forall|j: int|
                0 <= j < i ==> !starts_with(#[trigger] ls[j], key + ": "@)) ==> value_in(ls, key)
                == Some(v),
        (forall|i: int| 0 <= i < ls.len() ==> !starts_with(#[trigger] ls[i], key + ": "@))
            <==> value_in(ls, key) is None,
    decreases ls.len(),
{
    let p = key + ": "@;
    if ls.len() > 0 {
        let rest = ls.skip(1);
        law_first_value(rest, key);
        assert forall|i: int, v: Seq<char>|
            0 <= i < ls.len() && #[trigger] ls[i] == #[trigger] (key + ": "@ + v) && (forall|j: int|
                0 <= j < i ==> !starts_with(#[trigger] ls[j], p)) implies value_in(ls, key) == Some(
            v,
        ) by {
            assert((p + v).subrange(0, p.len() as int) =~= p);
            assert((p + v).skip(p.len() as int) =~= v);
            if i > 0 {
                assert(!starts_with(ls[0], p));
                assert(rest[i - 1] == ls[i]);
                assert forall|j: int| 0 <= j < i - 1 implies !starts_with(#[trigger] rest[j], p) by {
                    assert(!starts_with(ls[j + 1], p));
                }
            }
        }
        if value_in(ls, key) is None {
            assert forall|i: int| 0 <= i < ls.len() implies !starts_with(#[trigger] ls[i], p) by {
                if i > 0 {
                    assert(!starts_with(rest[i - 1], p));
                }
            }
        }
        if forall|i: int| 0 <= i < ls.len() ==> !starts_with(#[trigger] ls[i], p) {
            assert(!starts_with(ls[0], p));
            assert forall|i: int| 0 <= i < rest.len() implies !starts_with(
                #[trigger] rest[i],
                p,
            ) by {
                assert(!starts_with(ls[i + 1], p));
            }
        }
    }
}

/// A value that is not there is blank.
pub proof fn law_value_or_blank(domain: Seq<char>, key: Seq<char>)
    ensures
        match value_in(lines(domain), key) {
            Some(v) => value_or_blank(domain, key) == v,
            None => value_or_blank(domain, key).len() == 0,
        },
{
}

/// Bytes without a line's end do not end a line, and wait behind those that wait
/// already.
proof fn lemma_no_end(pending: Seq<u8>, bytes: Seq<u8>)
    requires
        forall|i: int| 0 <= i < bytes.len() ==> #[trigger] bytes[i] != 10 && bytes[i] != 13,
    ensures
        split_bytes(pending, bytes) == (Seq::<Seq<u8>>::empty(), pending + bytes),
    decreases bytes.len(),
{
    if bytes.len() == 0 {
        assert(pending + bytes =~= pending);
        assert(split_bytes(pending, bytes).0 =~= Seq::<Seq<u8>>::empty());
    } else {
        lemma_no_end(pending, bytes.drop_last());
        assert(bytes[bytes.len() - 1] == bytes.last());
        assert((pending + bytes.drop_last()).push(bytes.last()) =~= pending + bytes);
    }
}

/// A line is handed out where its end comes, a carriage return or a line feed, with
/// all that waited; what has no end waits, and an end behind nothing is no line.
pub proof fn law_lines_end_at_their_ends(pending: Seq<u8>, line: Seq<u8>, end: u8)
    requires
        forall|i: int| 0 <= i < line.len() ==> #[trigger] line[i] != 10 && line[i] != 13,
        end == 10 || end == 13,
    ensures
        split_bytes(pending, line) == (Seq::<Seq<u8>>::empty(), pending + line),
        pending.len() + line.len() > 0 ==> split_bytes(pending, line.push(end)) == (
            seq![pending + line],
            Seq::<u8>::empty(),
        ),
        pending.len() + line.len() == 0 ==> split_bytes(pending, line.push(end)) == (
            Seq::<Seq<u8>>::empty(),
            Seq::<u8>::empty(),
        ),
{
    lemma_no_end(pending, line);
    assert(line.push(end).drop_last() =~= line);
    let r = split_bytes(pending, line.push(end));
    if pending.len() + line.len() > 0 {
        assert(r.0 =~= seq![pending + line]);
        assert(r.1 =~= Seq::<u8>::empty());
    } else {
        assert(r.1 =~= Seq::<u8>::empty());
    }
}

/// A tail holds the last lines, as many as fit, in order.
pub proof fn law_tail<T>(all: Seq<T>, cap: nat, i: int)
    requires
        0 <= i < last_of(all, cap).len(),
    ensures
        last_of(all, cap).len() == (if all.len() < cap {
            all.len()
        } else {
            cap
        }),
        last_of(all, cap)[i] == all[all.len() - last_of(all, cap).len() + i],
{
}

/// The percentage a line gives is the first word that is a numeral with a percent
/// sign behind it, and only a line that says `Finished` gives one.
pub proof fn law_first_percentage(ws: Seq<Seq<char>>)
    ensures
        forall|i: int, n: Seq<char>|
            0 <= i < ws.len() && #[trigger] ws[i] == #[trigger] (n + "%"@) && float_of(n) is Some
                && (forall|j: int, m: Seq<char>|
                0 <= j < i && #[trigger] ws[j] == #[trigger] (m + "%"@) ==> float_of(m) is None)
                ==> percent_in(ws) == Some(n),
        percent_in(ws) matches Some(n) ==> float_of(n) is Some && ws.contains(n + "%"@),
    decreases ws.len(),
{
    if ws.len() > 0 {
        let rest = ws.skip(1);
        law_first_percentage(rest);
        law_strip(ws[0], "%"@);
        assert forall|i: int, n: Seq<char>|
            0 <= i < ws.len() && #[trigger] ws[i] == #[trigger] (n + "%"@) && float_of(n) is Some
                && (forall|j: int, m: Seq<char>|
                0 <= j < i && #[trigger] ws[j] == #[trigger] (m + "%"@) ==> float_of(m) is None)
            implies percent_in(ws) == Some(n) by {
            if i == 0 {
                let k = strip_suffix(ws[0], "%"@)->0;
                assert(k + "%"@ == n + "%"@);
                assert(k =~= (k + "%"@).take(k.len() as int));
                assert(n =~= (n + "%"@).take(n.len() as int));
                assert(k.len() + "%"@.len() == n.len() + "%"@.len());
            } else {
                if let Some(k) = strip_suffix(ws[0], "%"@) {
                    assert(ws[0] == k + "%"@);
                    assert(float_of(k) is None);
                }
                assert(rest[i - 1] == ws[i]);
                assert forall|j: int, m: Seq<char>|
                    0 <= j < i - 1 && #[trigger] rest[j] == #[trigger] (m + "%"@) implies float_of(
                    m,
                ) is None by {
                    assert(ws[j + 1] == m + "%"@);
                }
            }
        }
        if let Some(n) = percent_in(ws) {
            if strip_suffix(ws[0], "%"@) == Some(n) && float_of(n) is Some {
                assert(ws[0] == n + "%"@);
            } else {
                assert(rest.contains(n + "%"@));
                let k = choose|k: int| 0 <= k < rest.len() && rest[k] == n + "%"@;
                assert(ws[k + 1] == n + "%"@);
            }
        }
    }
}

/// Only a line that says `Finished` gives an overall percentage, that of its words.
pub proof fn law_only_finished_gives_a_percentage(line: Seq<char>)
    ensures
        !contains(line, "Finished"@) ==> overall_percent(line) is None,
        contains(line, "Finished"@) ==> overall_percent(line) == percent_in(words(line)),
{
}

/// Each unit is the one before it a thousand and twenty-four times.
pub proof fn law_units(unit: Seq<char>)
    ensures
        unit_power("Bytes"@) == Some(0nat),
        unit_power("KB"@) == Some(10nat),
        unit_power("MB"@) == Some(20nat),
        unit_power("GB"@) == Some(30nat),
        unit_power("TB"@) == Some(40nat),
        unit != "Bytes"@ && unit != "KB"@ && unit != "MB"@ && unit != "GB"@ && unit != "TB"@
            ==> unit_power(unit) is None,
{
    reveal_strlit("Bytes");
    reveal_strlit("KB");
    reveal_strlit("MB");
    reveal_strlit("GB");
    reveal_strlit("TB");
    assert("Bytes"@.len() == 5 && "KB"@[0] == 'K' && "MB"@[0] == 'M' && "GB"@[0] == 'G'
        && "TB"@[0] == 'T');
}

/// The first place of a separator is right behind a front that holds none of it.
proof fn lemma_split(front: Seq<char>, c: char, back: Seq<char>)
    requires
        !front.contains(c),
    ensures
        split_once(front + seq![c] + back, seq![c]) == Some((front, back)),
{
    let s = front + seq![c] + back;
    law_find_is_first(s, seq![c]);
    let n = front.len() as int;
    assert(s.subrange(n, n + 1) =~= seq![c]);
    assert(occurs_at(s, seq![c], n));
    let i = find(s, seq![c])->0;
    assert(i <= n);
    if i < n {
        assert(s.subrange(i, i + 1)[0] == s[i]);
        assert(front[i] == c);
    }
    assert(s.take(n) =~= front);
    assert(s.skip(n + 1) =~= back);
}

/// A size is a numeral, a space and a unit, and worth the numeral times the unit.
pub proof fn law_size(number: Seq<char>, unit: Seq<char>)
    requires
        !number.contains(' '),
    ensures
        human_size(number + seq![' '] + unit) == (match (float_of(number), unit_power(unit)) {
            (Some(f), Some(k)) => Some(float_times(f, k)),
            _ => None,
        }),
{
    reveal_strlit(" ");
    assert(" "@ =~= seq![' ']);
    lemma_split(number, ' ', unit);
}

/// A line reports on a file by two sizes in its last brackets, with a slash between
/// them: what is done first, what there is in all second.
pub proof fn law_file_report(
    front: Seq<char>,
    done: Seq<char>,
    total: Seq<char>,
    back: Seq<char>,
)
    requires
        !done.contains('/'),
        !done.contains('(') && !done.contains(')'),
        !total.contains('(') && !total.contains(')'),
        !back.contains('(') && !back.contains(')'),
    ensures
        file_bytes(front + seq!['('] + done + seq!['/'] + total + seq![')'] + back) == (match (
            human_size(trim(done)),
            human_size(trim(total)),
        ) {
            (Some(d), Some(t)) => Some((d, t)),
            _ => None,
        }),
{
    let line = front + seq!['('] + done + seq!['/'] + total + seq![')'] + back;
    let start = front.len() as int;
    let end = start + done.len() + total.len() + 2;
    law_rfind_is_last(line, '(');
    law_rfind_is_last(line, ')');
    assert(line[start] == '(' && line[end] == ')');
    assert(line.contains('(') && line.contains(')'));
    assert forall|j: int| start < j < line.len() implies line[j] != '(' by {
        if j <= start + done.len() {
            assert(done.contains(done[j - start - 1]));
        } else if j == start + done.len() + 1 {
        } else if j < end {
            assert(total.contains(total[j - start - done.len() - 2]));
        } else if j > end {
            assert(back.contains(back[j - end - 1]));
        }
    }
    assert forall|j: int| end < j < line.len() implies line[j] != ')' by {
        assert(back.contains(back[j - end - 1]));
    }
    assert(rfind(line, '(') == Some(start));
    assert(rfind(line, ')') == Some(end));
    let inner = line.subrange(start + 1, end);
    assert(inner =~= done + seq!['/'] + total);
    reveal_strlit("/");
    assert("/"@ =~= seq!['/']);
    lemma_split(done, '/', total);
}

/// A line announces a file that is sent by its name in quotation marks and its size in
/// brackets behind it.
pub proof fn law_sent_report(name: Seq<char>, size: Seq<char>)
    requires
        forall|i: int|
            0 <= i < name.len() ==> !#[trigger] occurs_at(
                name + "' ("@ + (size + ")"@),
                "' ("@,
                i,
            ),
    ensures
        sending_size("Sending '"@ + (name + "' ("@ + (size + ")"@))) == human_size(trim(size)),
{
    let rest = name + "' ("@ + (size + ")"@);
    let line = "Sending '"@ + rest;
    assert(line.subrange(0, "Sending '"@.len() as int) =~= "Sending '"@);
    assert(line.skip("Sending '"@.len() as int) =~= rest);
    let p = "' ("@;
    law_find_is_first(rest, p);
    let n = name.len() as int;
    assert(rest.subrange(n, n + p.len()) =~= p);
    assert(occurs_at(rest, p, n));
    let i = find(rest, p)->0;
    assert(i == n);
    let behind = rest.skip(n + p.len());
    assert(behind =~= size + ")"@);
    let m = size.len() as int;
    assert(behind.subrange(m, m + ")"@.len()) =~= ")"@);
    assert(behind.take(m) =~= size);
}

/// How many files came is the number behind `Received`.
pub proof fn law_received_report(n: nat, gap: char, rest: Seq<char>)
    requires
        n <= u64::MAX,
        is_white(gap),
    ensures
        received_count("Received "@ + (decimal(n) + seq![gap] + rest)) == Some(n),
        received_count("Received "@ + decimal(n)) == Some(n),
{
    law_numerals_read_back(n, u64::MAX as nat);
    assert forall|i: int| 0 <= i < decimal(n).len() implies !is_white(#[trigger] decimal(n)[i]) by {
        assert(is_digit(decimal(n)[i]));
    }
    law_words(decimal(n), gap, rest);
    let p = "Received "@;
    let a = decimal(n) + seq![gap] + rest;
    assert((p + a).subrange(0, p.len() as int) =~= p);
    assert((p + a).skip(p.len() as int) =~= a);
    assert((p + decimal(n)).subrange(0, p.len() as int) =~= p);
    assert((p + decimal(n)).skip(p.len() as int) =~= decimal(n));
}

/// A failure is told by the code in it that stands on its own: that of a locked device
/// before that of a full or failing disk, and that before that of a wrong password; a
/// code inside a longer number is none.
pub proof fn law_codes(front: Seq<char>, back: Seq<char>)
    requires
        front.len() == 0 || !is_digit(front.last()),
        back.len() == 0 || !is_digit(back[0]),
    ensures
        classified(front + seq!['2', '0', '8'] + back) is DeviceLocked,
        !has_code(front + seq!['1', '0', '4'] + back, seq!['2', '0', '8']) ==> classified(
            front + seq!['1', '0', '4'] + back,
        ) is HostIoError,
        !has_code(front + seq!['2', '0', '7'] + back, seq!['2', '0', '8']) && !has_code(
            front + seq!['2', '0', '7'] + back,
            seq!['1', '0', '4'],
        ) ==> classified(front + seq!['2', '0', '7'] + back) is WrongBackupPassword,
{
    lemma_code(front, seq!['2', '0', '8'], back);
    lemma_code(front, seq!['1', '0', '4'], back);
    lemma_code(front, seq!['2', '0', '7'], back);
}

/// A code with no digit on either side is one.
proof fn lemma_code(front: Seq<char>, code: Seq<char>, back: Seq<char>)
    requires
        front.len() == 0 || !is_digit(front.last()),
        back.len() == 0 || !is_digit(back[0]),
    ensures
        has_code(front + code + back, code),
{
    let s = front + code + back;
    let i = front.len() as int;
    assert(s.subrange(i, i + code.len()) =~= code);
    assert(code_at(s, code, i));
}

/// A failure without any of the codes is told as it is, but for the one that says that
/// the device is not ready.
pub proof fn law_other_failures_are_quoted(message: Seq<char>)
    requires
        forall|i: int|
            0 <= i < message.len() ==> !is_digit(#[trigger] message[i]),
    ensures
        contains(message, "Could not start service com.apple.mobilebackup2"@) ==> classified(
            message,
        ) is DeviceNotReadyForBackupService,
        !contains(message, "Could not start service com.apple.mobilebackup2"@) ==> classified(
            message,
        ) == ErrorView::ToolFailed(message),
{
    lemma_no_code(message, seq!['2', '0', '8']);
    lemma_no_code(message, seq!['1', '0', '4']);
    lemma_no_code(message, seq!['2', '0', '7']);
}

/// There is no code where there are no digits.
proof fn lemma_no_code(message: Seq<char>, code: Seq<char>)
    requires
        forall|i: int|
            0 <= i < message.len() ==> !is_digit(#[trigger] message[i]),
        code.len() == 3,
        is_digit(code[0]),
    ensures
        !has_code(message, code),
{
    assert forall|i: int| !#[trigger] code_at(message, code, i) by {
        if code_at(message, code, i) {
            assert(message.subrange(i, i + 3)[0] == message[i]);
            assert(!is_digit(message[i]));
        }
    }
}

/// What a line says: a wait for the passcode before all else, then what it reports in
/// numbers, then how it ends; a failure is an error, or something failed or aborted.
pub proof fn law_reading(line: Seq<char>)
    ensures
        reading(line) is Blank <==> line.len() == 0,
        line.len() > 0 ==> {
            let waits = contains(line, "Waiting for passcode"@);
            let counts = overall_percent(line) is Some || file_bytes(line) is Some || sending_size(
                line,
            ) is Some || received_count(line) is Some;
            &&& reading(line) is Passcode <==> waits
            &&& reading(line) is Overall <==> !waits && overall_percent(line) is Some
            &&& reading(line) is FileBytes <==> !waits && overall_percent(line) is None
                && file_bytes(line) is Some
            &&& reading(line) is Sent <==> !waits && overall_percent(line) is None && file_bytes(
                line,
            ) is None && sending_size(line) is Some
            &&& reading(line) is Received <==> !waits && overall_percent(line) is None
                && file_bytes(line) is None && sending_size(line) is None && received_count(
                line,
            ) is Some
            &&& reading(line) is Successful <==> !waits && !counts && ends_with(
                line,
                "Successful."@,
            )
            &&& reading(line) is Failure <==> !waits && !counts && !ends_with(
                line,
                "Successful."@,
            ) && (starts_with(line, "ERROR"@) || contains(line, "Failed"@) || contains(
                line,
                "Aborted"@,
            ))
        },
        reading(line) matches KindView::Overall(n) ==> overall_percent(line) == Some(n),
        reading(line) matches KindView::FileBytes { done, total } ==> done == (file_bytes(
            line,
        )->0).0 as u64 && total == (file_bytes(line)->0).1 as u64,
{
}

// --- following a transfer ----------------------------------------------------------------

/// What one line of a transfer's output says.
#[derive(Debug)]
pub enum LineKind {
    /// Nothing.
    Blank,
    /// The device waits for its passcode.
    Passcode,
    /// The overall percentage, as its numeral.
    Overall(String),
    /// Bytes done and bytes in all of the file being received.
    FileBytes { done: u64, total: u64 },
    /// The size of a file being sent.
    Sent(u64),
    /// How many files the device sent in all.
    Received(u64),
    /// The transfer succeeded.
    Successful,
    /// Something failed.
    Failure,
    /// Nothing that matters.
    Unremarkable,
}

/// A [`LineKind`] with its numeral as a sequence of characters.
pub enum KindView {
    Blank,
    Passcode,
    Overall(Seq<char>),
    FileBytes { done: u64, total: u64 },
    Sent(u64),
    Received(u64),
    Successful,
    Failure,
    Unremarkable,
}

impl View for LineKind {
    type V = KindView;

    open spec fn view(&self) -> KindView {
        match self {
            LineKind::Blank => KindView::Blank,
            LineKind::Passcode => KindView::Passcode,
            LineKind::Overall(n) => KindView::Overall(n@),
            LineKind::FileBytes { done, total } => KindView::FileBytes {
                done: *done,
                total: *total,
            },
            LineKind::Sent(n) => KindView::Sent(*n),
            LineKind::Received(n) => KindView::Received(*n),
            LineKind::Successful => KindView::Successful,
            LineKind::Failure => KindView::Failure,
            LineKind::Unremarkable => KindView::Unremarkable,
        }
    }
}

/// What a trimmed line says: the first of these that it says.
pub open spec fn reading(line: Seq<char>) -> KindView {
    if line.len() == 0 {
        KindView::Blank
    } else if contains(line, "Waiting for passcode"@) {
        KindView::Passcode
    } else if overall_percent(line) is Some {
        KindView::Overall(overall_percent(line)->0)
    } else if file_bytes(line) is Some {
        KindView::FileBytes {
            done: (file_bytes(line)->0).0 as u64,
            total: (file_bytes(line)->0).1 as u64,
        }
    } else if sending_size(line) is Some {
        KindView::Sent((sending_size(line)->0) as u64)
    } else if received_count(line) is Some {
        KindView::Received((received_count(line)->0) as u64)
    } else if ends_with(line, "Successful."@) {
        KindView::Successful
    } else if starts_with(line, "ERROR"@) || contains(line, "Failed"@) || contains(
        line,
        "Aborted"@,
    ) {
        KindView::Failure
    } else {
        KindView::Unremarkable
    }
}

/// What a trimmed line says.
pub fn read_line(line: &str) -> (k: LineKind)
    ensures
        k@ == reading(line@),
{
    if line.unicode_len() == 0 {
        return LineKind::Blank;
    }
    if mentions(line, "Waiting for passcode") {
        return LineKind::Passcode;
    }
    if let Some(n) = parse_overall_percent(line) {
        return LineKind::Overall(n);
    }
    if let Some((done, total)) = parse_file_bytes(line) {
        return LineKind::FileBytes { done, total };
    }
    if let Some(n) = parse_sending_file(line) {
        return LineKind::Sent(n);
    }
    if let Some(n) = parse_received(line) {
        return LineKind::Received(n);
    }
    if ends(line, "Successful.") {
        return LineKind::Successful;
    }
    if begins(line, "ERROR") || mentions(line, "Failed") || mentions(line, "Aborted") {
        return LineKind::Failure;
    }
    LineKind::Unremarkable
}

/// What a transfer has to tell while it runs.
#[derive(Debug)]
pub enum ProgressEvent {
    /// The device needs someone to look at it, or no longer does.
    Attention(bool),
    /// How far the whole transfer is, the percentage as its numeral.
    Overall { bytes_done: u64, percent: String },
    /// A file was moved; `count` of them so far.
    File { line: String, count: u32 },
}

/// A [`ProgressEvent`] with its texts as sequences of characters.
pub enum EventView {
    Attention(bool),
    Overall { bytes_done: u64, percent: Seq<char> },
    File { line: Seq<char>, count: u32 },
}

impl View for ProgressEvent {
    type V = EventView;

    open spec fn view(&self) -> EventView {
        match self {
            ProgressEvent::Attention(b) => EventView::Attention(*b),
            ProgressEvent::Overall { bytes_done, percent } => EventView::Overall {
                bytes_done: *bytes_done,
                percent: percent@,
            },
            ProgressEvent::File { line, count } => EventView::File { line: line@, count: *count },
        }
    }
}

/// The views of several events.
pub open spec fn event_views(v: Seq<ProgressEvent>) -> Seq<EventView> {
    v.map_values(|e: ProgressEvent| e@)
}

/// Follows the output of a transfer line by line.
#[derive(Debug)]
pub struct ProgressParser {
    files: u32,
    bytes_done: u64,
    last_file_bytes: u64,
    last_file_complete: bool,
    waiting_for_passcode: bool,
    received_final: Option<u64>,
    saw_success: bool,
    files_received: u64,
    bytes_reported: u64,
    last_error: Option<String>,
}

/// What a [`ProgressParser`] knows.
pub struct ParserView {
    /// Files seen to complete.
    pub files: u32,
    /// Bytes seen to move.
    pub bytes_done: u64,
    /// Bytes of the current file that are in `bytes_done` already.
    pub last_file_bytes: u64,
    /// Whether the last report on a file said that it was complete.
    pub last_file_complete: bool,
    /// Whether the device waits for its passcode.
    pub waiting: bool,
    /// The number of files the device itself gave.
    pub received_final: Option<u64>,
    /// Whether the transfer was reported successful.
    pub saw_success: bool,
    /// The number of files to report.
    pub files_received: u64,
    /// The number of bytes to report.
    pub bytes_reported: u64,
    /// The last line that reported a failure.
    pub last_error: Option<Seq<char>>,
}

impl View for ProgressParser {
    type V = ParserView;

    closed spec fn view(&self) -> ParserView {
        ParserView {
            files: self.files,
            bytes_done: self.bytes_done,
            last_file_bytes: self.last_file_bytes,
            last_file_complete: self.last_file_complete,
            waiting: self.waiting_for_passcode,
            received_final: self.received_final,
            saw_success: self.saw_success,
            files_received: self.files_received,
            bytes_reported: self.bytes_reported,
            last_error: match self.last_error {
                Some(s) => Some(s@),
                None => None,
            },
        }
    }
}

impl ParserView {
    /// With the counts to report brought up to date.
    pub open spec fn synced(self) -> ParserView {
        ParserView {
            files_received: match self.received_final {
                Some(n) => n,
                None => self.files as u64,
            },
            bytes_reported: self.bytes_done,
            ..self
        }
    }

    /// How many bytes a report on a file adds.
    pub open spec fn added(self, done: u64) -> int {
        if done > self.last_file_bytes {
            done - self.last_file_bytes
        } else {
            0
        }
    }

    /// Whether a report on a file completes it.
    pub open spec fn completes(self, done: u64, total: u64) -> bool {
        total > 0 && done >= total && !self.last_file_complete
    }

    /// After a line of kind `k` that is neither blank nor a wait for the passcode.
    pub open spec fn taken(self, k: KindView, line: Seq<char>) -> (ParserView, Seq<EventView>) {
        match k {
            KindView::Overall(percent) => (
                self,
                seq![EventView::Overall { bytes_done: self.bytes_done, percent }],
            ),
            KindView::FileBytes { done, total } => {
                let bytes_done = (self.bytes_done + self.added(done)) as u64;
                let last_file_complete = total > 0 && done >= total;
                if self.completes(done, total) {
                    let files = (self.files + 1) as u32;
                    (
                        (ParserView {
                            bytes_done,
                            files,
                            last_file_bytes: 0,
                            last_file_complete,
                            ..self
                        }).synced(),
                        seq![EventView::File { line, count: files }],
                    )
                } else {
                    (
                        (ParserView {
                            bytes_done,
                            last_file_bytes: done,
                            last_file_complete,
                            ..self
                        }).synced(),
                        seq![],
                    )
                }
            },
            KindView::Sent(size) => {
                let files = (self.files + 1) as u32;
                (
                    (ParserView { bytes_done: (self.bytes_done + size) as u64, files, ..self }).synced(),
                    seq![EventView::File { line, count: files }],
                )
            },
            KindView::Received(n) => (
                (ParserView { received_final: Some(n), ..self }).synced(),
                seq![],
            ),
            KindView::Successful => (ParserView { saw_success: true, ..self }, seq![]),
            KindView::Failure => (ParserView { last_error: Some(line), ..self }, seq![]),
            _ => (self, seq![]),
        }
    }

    /// After a line: what is known then, and what there is to tell.
    pub open spec fn after(self, raw: Seq<char>) -> (ParserView, Seq<EventView>) {
        let line = trim(raw);
        match reading(line) {
            KindView::Blank => (self, seq![]),
            KindView::Passcode => if self.waiting {
                (self, seq![])
            } else {
                (ParserView { waiting: true, ..self }, seq![EventView::Attention(true)])
            },
            k => {
                let (next, events) = (ParserView { waiting: false, ..self }).taken(k, line);
                if self.waiting {
                    (next, seq![EventView::Attention(false)] + events)
                } else {
                    (next, events)
                }
            },
        }
    }

    /// Whether the counts can take what a line of kind `k` adds.
    pub open spec fn has_room(self, k: KindView) -> bool {
        match k {
            KindView::FileBytes { done, total } => {
                &&& self.bytes_done + self.added(done) <= u64::MAX
                &&& self.completes(done, total) ==> self.files < u32::MAX
            },
            KindView::Sent(size) => self.bytes_done + size <= u64::MAX && self.files < u32::MAX,
            _ => true,
        }
    }

    /// Nothing known.
    pub open spec fn fresh() -> ParserView {
        ParserView {
            files: 0,
            bytes_done: 0,
            last_file_bytes: 0,
            last_file_complete: false,
            waiting: false,
            received_final: None,
            saw_success: false,
            files_received: 0,
            bytes_reported: 0,
            last_error: None,
        }
    }
}

impl ProgressParser {
    /// A parser that has seen no line.
    pub fn new() -> (p: ProgressParser)
        ensures
            p@ == ParserView::fresh(),
    {
        ProgressParser {
            files: 0,
            bytes_done: 0,
            last_file_bytes: 0,
            last_file_complete: false,
            waiting_for_passcode: false,
            received_final: None,
            saw_success: false,
            files_received: 0,
            bytes_reported: 0,
            last_error: None,
        }
    }

    /// Whether the counts can take what `line` adds to them.
    pub fn can_take(&self, line: &str) -> (r: bool)
        ensures
            r == self@.has_room(reading(trim(line@))),
    {
        match read_line(trimmed(line).as_str()) {
            LineKind::FileBytes { done, total } => {
                let added: u64 = done.saturating_sub(self.last_file_bytes);
                let completes = total > 0 && done >= total && !self.last_file_complete;
                self.bytes_done <= u64::MAX - added && (!completes || self.files < u32::MAX)
            },
            LineKind::Sent(size) => self.bytes_done <= u64::MAX - size && self.files < u32::MAX,
            _ => true,
        }
    }

    /// Takes in one line and hands out what there is to tell.
    pub fn on_line(&mut self, line: &str) -> (events: Vec<ProgressEvent>)
        requires
            old(self)@.has_room(reading(trim(line@))),
        ensures
            (final(self)@, event_views(events@)) == old(self)@.after(line@),
    {
        let ghost before = self@;
        let line = trimmed(line);
        let kind = read_line(line.as_str());
        let ghost said = kind@;
        let ghost words_said = line@;
        let mut events: Vec<ProgressEvent> = Vec::new();
        assert(event_views(events@) =~= seq![]);
        match kind {
            LineKind::Blank => {
                return events;
            },
            LineKind::Passcode => {
                if !self.waiting_for_passcode {
                    self.waiting_for_passcode = true;
                    events.push(ProgressEvent::Attention(true));
                    assert(event_views(events@) =~= seq![EventView::Attention(true)]);
                }
                return events;
            },
            _ => {},
        }
        if self.waiting_for_passcode {
            self.waiting_for_passcode = false;
            events.push(ProgressEvent::Attention(false));
        }
        let ghost first = event_views(events@);
        assert(first =~= if before.waiting {
            seq![EventView::Attention(false)]
        } else {
            seq![]
        });
        match kind {
            LineKind::Overall(percent) => {
                events.push(ProgressEvent::Overall { bytes_done: self.bytes_done, percent });
            },
            LineKind::FileBytes { done, total } => {
                let added: u64 = done.saturating_sub(self.last_file_bytes);
                self.bytes_done = self.bytes_done + added;
                self.last_file_bytes = done;
                let complete = total > 0 && done >= total;
                if complete && !self.last_file_complete {
                    self.files = self.files + 1;
                    events.push(ProgressEvent::File { line, count: self.files });
                    self.last_file_bytes = 0;
                }
                self.last_file_complete = complete;
                self.sync();
            },
            LineKind::Sent(size) => {
                self.bytes_done = self.bytes_done + size;
                self.files = self.files + 1;
                events.push(ProgressEvent::File { line, count: self.files });
                self.sync();
            },
            LineKind::Received(n) => {
                self.received_final = Some(n);
                self.sync();
            },
            LineKind::Successful => {
                self.saw_success = true;
            },
            LineKind::Failure => {
                self.last_error = Some(line);
            },
            _ => {},
        }
        proof {
            let (_, more) = (ParserView { waiting: false, ..before }).taken(said, words_said);
            assert(event_views(events@) =~= first + more);
            assert(seq![] + more =~= more);
        }
        events
    }

    /// Brings the counts to report up to date.
    fn sync(&mut self)
        ensures
            final(self)@ == old(self)@.synced(),
    {
        self.files_received = match self.received_final {
            Some(n) => n,
            None => self.files as u64,
        };
        self.bytes_reported = self.bytes_done;
    }
}

/// The counts to report are never behind: where they are up to date, they are
/// so after any line, and a transfer cut short reports what it moved.
pub proof fn law_report_is_current(p: ParserView, raw: Seq<char>)
    requires
        p.synced() == p,
    ensures
        p.after(raw).0.synced() == p.after(raw).0,
{
}

/// A parser that has seen no line is up to date.
pub proof fn law_report_starts_current()
    ensures
        ParserView::fresh().synced() == ParserView::fresh(),
{
}

/// The bytes and files counted never go down.
pub proof fn law_counts_grow(p: ParserView, raw: Seq<char>)
    requires
        p.has_room(reading(trim(raw))),
    ensures
        p.after(raw).0.bytes_done >= p.bytes_done,
        p.after(raw).0.files >= p.files,
{
}

/// A call for attention is made once, and taken back once: it is made only
/// where none stands, and taken back only where one does.
pub proof fn law_attention_alternates(p: ParserView, raw: Seq<char>, i: int)
    requires
        0 <= i < p.after(raw).1.len(),
        p.after(raw).1[i] is Attention,
    ensures
        p.after(raw).1[i] == EventView::Attention(!p.waiting),
        p.after(raw).0.waiting == !p.waiting,
        i == 0,
{
}

// --- what holds of a followed transfer -------------------------------------------------------

/// Whether a line reports on the file being received.
pub open spec fn reports(raw: Seq<char>) -> bool {
    reading(trim(raw)) is FileBytes
}

/// Whether a line reports that the file being received is there as a whole.
pub open spec fn reports_whole(raw: Seq<char>) -> bool {
    reading(trim(raw)) matches KindView::FileBytes { done, total } && total > 0 && done >= total
}

/// Whether an event tells of a file.
pub open spec fn tells_of_file(e: EventView) -> bool {
    e is File
}

/// What is known after several lines.
pub open spec fn known_after(p: ParserView, lines: Seq<Seq<char>>) -> ParserView
    decreases lines.len(),
{
    if lines.len() == 0 {
        p
    } else {
        known_after(p, lines.drop_last()).after(lines.last()).0
    }
}

/// Whether line `j` is the last report on a file being received before line `i`.
pub open spec fn last_report(lines: Seq<Seq<char>>, j: int, i: int) -> bool {
    &&& 0 <= j < i
    &&& reports(lines[j])
    &&& forall|k: int| j < k < i ==> !reports(#[trigger] lines[k])
}

/// Whether line `i` finishes a file: it reports one whole, and the report before
/// it, if there was one, did not.
pub open spec fn finishes_a_file(lines: Seq<Seq<char>>, i: int) -> bool {
    &&& reports_whole(lines[i])
    &&& forall|j: int| #[trigger] last_report(lines, j, i) ==> !reports_whole(lines[j])
}

/// How many of several lines move a file: those that finish one being received,
/// and those that send one.
pub open spec fn files_moved(lines: Seq<Seq<char>>) -> nat
    decreases lines.len(),
{
    if lines.len() == 0 {
        0
    } else {
        files_moved(lines.drop_last()) + if finishes_a_file(lines, lines.len() - 1) || reading(
            trim(lines.last()),
        ) is Sent {
            1nat
        } else {
            0nat
        }
    }
}

/// A whole file after an unfinished one is always counted and told of, once; and
/// a file that is reported whole again is not.
pub proof fn law_each_file_counts_once(p: ParserView, first: Seq<char>, second: Seq<char>)
    requires
        reports(first),
        reports_whole(second),
        p.after(first).0.files < u32::MAX,
    ensures
        !reports_whole(first) ==> {
            &&& p.after(first).0.files == p.files
            &&& p.after(first).0.after(second).0.files == p.files + 1
            &&& p.after(first).0.after(second).1 == seq![
                EventView::File { line: trim(second), count: (p.files + 1) as u32 },
            ]
        },
        reports_whole(first) ==> {
            &&& p.after(first).0.after(second).0.files == p.after(first).0.files
            &&& p.after(first).0.after(second).1.len() == 0
        },
{
}

/// Lines that do not report on a file being received leave it as it was: the next
/// report on it counts as it would have.
pub proof fn law_other_lines_leave_the_file(p: ParserView, raw: Seq<char>)
    requires
        !reports(raw),
    ensures
        p.after(raw).0.last_file_bytes == p.last_file_bytes,
        p.after(raw).0.last_file_complete == p.last_file_complete,
        reading(trim(raw)) !is Sent ==> {
            &&& p.after(raw).0.files == p.files
            &&& p.after(raw).0.bytes_done == p.bytes_done
            &&& forall|i: int|
                0 <= i < p.after(raw).1.len() ==> !tells_of_file(#[trigger] p.after(raw).1[i])
        },
{
}

/// A file is worth as many bytes as its last report says, in however many reports
/// they come: two reports on one file add what the second says.
pub proof fn law_reports_on_a_file_add_up(p: ParserView, first: Seq<char>, second: Seq<char>)
    requires
        p.last_file_bytes == 0,
        reading(trim(first)) is FileBytes,
        !reports_whole(first),
        reading(trim(second)) is FileBytes,
        (reading(trim(first))->FileBytes_done) <= (reading(trim(second))->FileBytes_done),
        p.bytes_done + (reading(trim(second))->FileBytes_done) <= u64::MAX,
    ensures
        p.after(first).0.bytes_done == p.bytes_done + (reading(trim(first))->FileBytes_done),
        p.after(first).0.after(second).0.bytes_done == p.bytes_done + (reading(
            trim(second),
        )->FileBytes_done),
        p.after(first).0.after(second).0.bytes_reported == p.after(first).0.after(
            second,
        ).0.bytes_done,
        reports_whole(second) ==> p.after(first).0.after(second).0.last_file_bytes == 0,
{
}

/// A report that goes back adds nothing.
pub proof fn law_going_back_adds_nothing(p: ParserView, raw: Seq<char>)
    requires
        reading(trim(raw)) matches KindView::FileBytes { done, total } && done
            <= p.last_file_bytes,
    ensures
        p.after(raw).0.bytes_done == p.bytes_done,
{
}

/// A file that is sent adds its size and counts as one file, and is told of.
pub proof fn law_sent_files_count(p: ParserView, raw: Seq<char>, size: u64)
    requires
        reading(trim(raw)) == KindView::Sent(size),
        p.has_room(KindView::Sent(size)),
    ensures
        p.after(raw).0.bytes_done == p.bytes_done + size,
        p.after(raw).0.files == p.files + 1,
        p.after(raw).1.contains(
            EventView::File { line: trim(raw), count: (p.files + 1) as u32 },
        ),
{
    let events = p.after(raw).1;
    let e = EventView::File { line: trim(raw), count: (p.files + 1) as u32 };
    if p.waiting {
        assert(events[1] == e);
    } else {
        assert(events[0] == e);
    }
}

/// The device's own count, once given, is what is reported, whatever else is
/// counted after it.
pub proof fn law_own_count_wins(p: ParserView, raw: Seq<char>, n: u64, later: Seq<char>)
    requires
        reading(trim(raw)) == KindView::Received(n),
        reading(trim(later)) !is Received,
    ensures
        p.after(raw).0.files_received == n,
        p.after(raw).0.after(later).0.files_received == n,
        p.after(raw).0.files == p.files,
{
}

/// The last failure is what is kept of failures, success is remembered once said,
/// and neither says anything of files or bytes.
pub proof fn law_failure_and_success_are_kept(p: ParserView, raw: Seq<char>)
    ensures
        p.after(raw).0.saw_success <==> p.saw_success || reading(trim(raw)) is Successful,
        p.after(raw).0.last_error == (if reading(trim(raw)) is Failure {
            Some(trim(raw))
        } else {
            p.last_error
        }),
{
}

/// The overall percentage is told as it was given, with the bytes moved so far.
pub proof fn law_overall_is_told(p: ParserView, raw: Seq<char>, percent: Seq<char>)
    requires
        reading(trim(raw)) == KindView::Overall(percent),
    ensures
        p.after(raw).1.last() == (EventView::Overall { bytes_done: p.bytes_done, percent }),
        p.after(raw).0.bytes_done == p.bytes_done,
        p.after(raw).0.files == p.files,
{
}

/// Attention is called for when the device waits for its passcode, and taken back
/// by the next line that says anything else.
pub proof fn law_attention_follows_the_passcode(p: ParserView, raw: Seq<char>)
    ensures
        reading(trim(raw)) is Passcode ==> p.after(raw).0.waiting && (!p.waiting ==> p.after(raw).1
            == seq![EventView::Attention(true)]) && (p.waiting ==> p.after(raw).1.len() == 0),
        reading(trim(raw)) is Blank ==> p.after(raw) == (p, Seq::<EventView>::empty()),
        reading(trim(raw)) !is Passcode && reading(trim(raw)) !is Blank ==> !p.after(raw).0.waiting
            && (p.waiting ==> p.after(raw).1.len() > 0 && p.after(raw).1[0]
            == EventView::Attention(false)),
{
    assert(seq![] =~= Seq::<EventView>::empty());
}

/// What a report on a file says of it is what is known of it.
proof fn lemma_report_is_known(p: ParserView, raw: Seq<char>)
    requires
        reports(raw),
    ensures
        p.after(raw).0.last_file_complete == reports_whole(raw),
{
}

/// The last report on a file among several lines, -1 where there is none: whether
/// it said that the file was whole is what is known.
#[verifier::rlimit(80)]
#[verifier::spinoff_prover]
proof fn lemma_last_report(lines: Seq<Seq<char>>) -> (j: int)
    ensures
        j == -1 ==> !known_after(ParserView::fresh(), lines).last_file_complete && forall|k: int|
            0 <= k < lines.len() ==> !reports(#[trigger] lines[k]),
        j != -1 ==> last_report(lines, j, lines.len() as int) && known_after(
            ParserView::fresh(),
            lines,
        ).last_file_complete == reports_whole(lines[j]),
    decreases lines.len(),
{
    if lines.len() == 0 {
        -1
    } else {
        let before = lines.drop_last();
        let n = lines.len() - 1;
        let p = known_after(ParserView::fresh(), before);
        let j = lemma_last_report(before);
        assert(forall|k: int| 0 <= k < n ==> #[trigger] lines[k] == before[k]);
        if reports(lines[n]) {
            lemma_report_is_known(p, lines[n]);
            n
        } else {
            law_other_lines_leave_the_file(p, lines[n]);
            j
        }
    }
}

/// Over any lines, the files counted are those that a line reported whole for the
/// first time, or for the first time after an unfinished report, and those sent.
#[verifier::rlimit(80)]
#[verifier::spinoff_prover]
pub proof fn law_files_counted(lines: Seq<Seq<char>>)
    requires
        files_moved(lines) <= u32::MAX,
    ensures
        known_after(ParserView::fresh(), lines).files == files_moved(lines),
    decreases lines.len(),
{
    if lines.len() > 0 {
        let before = lines.drop_last();
        let n = lines.len() - 1;
        law_files_counted(before);
        let j = lemma_last_report(before);
        let p = known_after(ParserView::fresh(), before);
        assert(forall|k: int| 0 <= k < n ==> #[trigger] lines[k] == before[k]);
        if reports_whole(lines[n]) {
            if p.last_file_complete {
                assert(last_report(lines, j, n));
                assert(!finishes_a_file(lines, n));
            } else {
                assert forall|i: int| #[trigger] last_report(lines, i, n) implies !reports_whole(
                    lines[i],
                ) by {
                    assert(reports(lines[i]));
                    if j < i {
                        assert(!reports(before[i]));
                    } else if i < j {
                        assert(!reports(lines[j]));
                    }
                }
                assert(finishes_a_file(lines, n));
            }
        } else if !reports(lines[n]) {
            law_other_lines_leave_the_file(p, lines[n]);
        }
    }
}

// --- how a transfer ended ------------------------------------------------------------------

/// How a transfer's process came to its end.
#[derive(Debug)]
pub enum Resolution {
    /// It could not be waited for; the system's words for that.
    WaitFailed(String),
    /// It was killed after too long a silence.
    Stalled,
    /// It exited; `status` is how the system prints that.
    Exited { success: bool, status: String },
}

/// What came of a transfer, and how far it got.
#[derive(Debug)]
pub struct RunResult {
    pub outcome: Result<(), CradleError>,
    pub files_received: u64,
    pub bytes_transferred: u64,
}

/// The last of `ls` that is not blank.
pub open spec fn last_filled(ls: Seq<Seq<char>>) -> Option<Seq<char>>
    decreases ls.len(),
{
    if ls.len() == 0 {
        None
    } else if trim(ls.last()).len() > 0 {
        Some(ls.last())
    } else {
        last_filled(ls.drop_last())
    }
}

/// What is said of a process that failed without a word.
pub open spec fn silent_failure(status: Seq<char>) -> Seq<char> {
    "idevicebackup2 exited unexpectedly ("@ + status
        + ") without printing an error — this usually means the connection to the device dropped before the backup protocol could even start. Check the cable/USB connection, make sure the device is unlocked and still shows as trusted, and try again."@
}

/// What a failed transfer said: the last failure in its output, or the last
/// line of its errors, or nothing.
pub open spec fn failure_message(
    last_error: Option<Seq<char>>,
    errors: Seq<Seq<char>>,
    status: Seq<char>,
) -> Seq<char> {
    match last_error {
        Some(line) => line,
        None => match last_filled(errors) {
            Some(line) => line,
            None => silent_failure(status),
        },
    }
}

/// What comes of a transfer: success takes both a clean exit and the tool's own
/// word for it.
pub open spec fn concluded(
    resolution: Resolution,
    p: ParserView,
    errors: Seq<Seq<char>>,
) -> Result<(), ErrorView> {
    match resolution {
        Resolution::WaitFailed(e) => Err(ErrorView::Io(e@)),
        Resolution::Stalled => Err(ErrorView::Stalled),
        Resolution::Exited { success, status } => if success && p.saw_success {
            Ok(())
        } else {
            Err(classified(failure_message(p.last_error, errors, status@)))
        },
    }
}

/// The last of `ls` that is not blank.
fn last_filled_line(ls: &Vec<String>) -> (r: Option<String>)
    ensures
        match r {
            Some(l) => last_filled(texts(ls@)) == Some(l@),
            None => last_filled(texts(ls@)) is None,
        },
{
    let mut n: usize = ls.len();
    assert(texts(ls@).take(n as int) =~= texts(ls@));
    while n > 0
        invariant
            n <= ls@.len(),
            last_filled(texts(ls@)) == last_filled(texts(ls@).take(n as int)),
        decreases n,
    {
        proof {
            let now = texts(ls@).take(n as int);
            assert(now.last() == ls@[n - 1]@);
            assert(now.drop_last() =~= texts(ls@).take(n - 1));
        }
        if trimmed(ls[n - 1].as_str()).as_str().unicode_len() > 0 {
            return Some(ls[n - 1].clone());
        }
        n = n - 1;
    }
    None
}

/// Concludes a transfer from how its process ended, what its output said and
/// the last lines of its errors.
pub fn conclude(resolution: Resolution, parser: &ProgressParser, errors: &Vec<String>) -> (r:
    RunResult)
    ensures
        match (r.outcome, concluded(resolution, parser@, texts(errors@))) {
            (Ok(()), Ok(())) => true,
            (Err(e), Err(x)) => e@ == x,
            _ => false,
        },
        r.files_received == parser@.files_received,
        r.bytes_transferred == parser@.bytes_reported,
{
    let outcome = match resolution {
        Resolution::WaitFailed(e) => Err(CradleError::Io(e)),
        Resolution::Stalled => Err(CradleError::Stalled),
        Resolution::Exited { success, status } => if success && parser.saw_success {
            Ok(())
        } else {
            let message = match &parser.last_error {
                Some(line) => line.clone(),
                None => match last_filled_line(errors) {
                    Some(line) => line,
                    None => "idevicebackup2 exited unexpectedly (".to_owned().concat(
                        status.as_str(),
                    ).concat(
                        ") without printing an error — this usually means the connection to the device dropped before the backup protocol could even start. Check the cable/USB connection, make sure the device is unlocked and still shows as trusted, and try again.",
                    ),
                },
            };
            Err(classify_error(message.as_str()))
        },
    };
    RunResult {
        outcome,
        files_received: parser.files_received,
        bytes_transferred: parser.bytes_reported,
    }
}

/// A transfer that could not be started moved nothing.
pub fn not_started(source: CradleError) -> (r: RunResult)
    ensures
        r.outcome matches Err(e) && e@ == source@,
        r.files_received == 0,
        r.bytes_transferred == 0,
{
    RunResult { outcome: Err(source), files_received: 0, bytes_transferred: 0 }
}

/// No transfer counts as done unless its process exited cleanly and said so.
pub proof fn law_success_takes_both(
    resolution: Resolution,
    p: ParserView,
    errors: Seq<Seq<char>>,
)
    ensures
        concluded(resolution, p, errors) is Ok <==> (match resolution {
            Resolution::Exited { success, .. } => success && p.saw_success,
            _ => false,
        }),
{
}

/// The line quoted is the last that is not blank; there is none only where all are.
pub proof fn law_last_filled(ls: Seq<Seq<char>>)
    ensures
        forall|i: int|
            0 <= i < ls.len() && trim(#[trigger] ls[i]).len() > 0 && (forall|j: int|
                i < j < ls.len() ==> trim(#[trigger] ls[j]).len() == 0) ==> last_filled(ls) == Some(
                ls[i],
            ),
        (forall|i: int| 0 <= i < ls.len() ==> trim(#[trigger] ls[i]).len() == 0) <==> last_filled(
            ls,
        ) is None,
    decreases ls.len(),
{
    if ls.len() > 0 && trim(ls.last()).len() == 0 {
        let before = ls.drop_last();
        law_last_filled(before);
        assert forall|i: int|
            0 <= i < ls.len() && trim(#[trigger] ls[i]).len() > 0 && (forall|j: int|
                i < j < ls.len() ==> trim(#[trigger] ls[j]).len() == 0) implies last_filled(ls)
            == Some(ls[i]) by {
            assert(before[i] == ls[i]);
            assert forall|j: int| i < j < before.len() implies trim(#[trigger] before[j]).len()
                == 0 by {
                assert(ls[j] == before[j]);
            }
        }
        if last_filled(ls) is None {
            assert forall|i: int| 0 <= i < ls.len() implies trim(#[trigger] ls[i]).len() == 0 by {
                if i < before.len() {
                    assert(before[i] == ls[i]);
                }
            }
        }
        if forall|i: int| 0 <= i < ls.len() ==> trim(#[trigger] ls[i]).len() == 0 {
            assert forall|i: int| 0 <= i < before.len() implies trim(#[trigger] before[i]).len()
                == 0 by {
                assert(before[i] == ls[i]);
            }
        }
    } else if ls.len() > 0 {
        assert(trim(ls[ls.len() - 1]).len() > 0);
    }
}

/// A transfer that exited without success is told by the last failure in its output;
/// without one, by the last line of its errors; without that, by its exit.
pub proof fn law_failure_is_quoted(
    success: bool,
    status: String,
    p: ParserView,
    errors: Seq<Seq<char>>,
)
    requires
        !(success && p.saw_success),
    ensures
        ({
            let r = concluded(Resolution::Exited { success, status }, p, errors);
            &&& p.last_error matches Some(line) ==> r == Err::<(), _>(classified(line))
            &&& p.last_error is None && last_filled(errors) is Some ==> r == Err::<(), _>(
                classified(last_filled(errors)->0),
            )
            &&& p.last_error is None && last_filled(errors) is None ==> r == Err::<(), _>(
                classified(silent_failure(status@)),
            )
        }),
        concluded(Resolution::Stalled, p, errors) == Err::<(), _>(ErrorView::Stalled),
{
}

/// A code within a longer number is none.
pub proof fn law_longer_numbers_are_no_codes(
    front: Seq<char>,
    more: char,
    code: Seq<char>,
    back: Seq<char>,
)
    requires
        code.len() == 3,
        forall|i: int| 0 <= i < 3 ==> is_digit(#[trigger] code[i]),
        is_digit(more),
        forall|i: int| 0 <= i < front.len() ==> !is_digit(#[trigger] front[i]),
        forall|i: int| 0 <= i < back.len() ==> !is_digit(#[trigger] back[i]),
    ensures
        !has_code(front + seq![more] + code + back, code),
        !has_code(front + code + seq![more] + back, code),
{
    four_digits_are_no_code(front, seq![more] + code, back, code);
    four_digits_are_no_code(front, code + seq![more], back, code);
    assert(front + (seq![more] + code) + back =~= front + seq![more] + code + back);
    assert(front + (code + seq![more]) + back =~= front + code + seq![more] + back);
}

/// A run of four digits is no code of three.
proof fn four_digits_are_no_code(
    front: Seq<char>,
    run: Seq<char>,
    back: Seq<char>,
    code: Seq<char>,
)
    requires
        code.len() == 3,
        forall|i: int| 0 <= i < 3 ==> is_digit(#[trigger] code[i]),
        run.len() == 4,
        forall|i: int| 0 <= i < 4 ==> is_digit(#[trigger] run[i]),
        forall|i: int| 0 <= i < front.len() ==> !is_digit(#[trigger] front[i]),
        forall|i: int| 0 <= i < back.len() ==> !is_digit(#[trigger] back[i]),
    ensures
        !has_code(front + run + back, code),
{
    let s = front + run + back;
    let n = front.len() as int;
    assert forall|i: int| !#[trigger] code_at(s, code, i) by {
        if code_at(s, code, i) {
            let part = s.subrange(i, i + 3);
            assert(part[0] == s[i] && part[1] == s[i + 1] && part[2] == s[i + 2]);
            assert(is_digit(code[0]) && is_digit(code[1]) && is_digit(code[2]));
            assert(is_digit(s[i]) && is_digit(s[i + 2]));
            if i < n {
                assert(!is_digit(front[i]));
            }
            if i + 2 >= n + 4 {
                assert(s[i + 2] == back[i + 2 - n - 4]);
                assert(!is_digit(back[i + 2 - n - 4]));
            }
            if i == n {
                assert(s[i + 3] == run[3]);
            } else {
                assert(s[i - 1] == run[i - 1 - n]);
            }
        }
    }
}

/// A process that failed without a word is told with its status, an unpaired device
/// with what its tool said.
pub proof fn law_told_in_words(status: Seq<char>, detail: Seq<char>)
    ensures
        silent_failure(status) == "idevicebackup2 exited unexpectedly ("@ + status
            + ") without printing an error — this usually means the connection to the device dropped before the backup protocol could even start. Check the cable/USB connection, make sure the device is unlocked and still shows as trusted, and try again."@,
        pairing_advice(detail)
            == "No valid pairing record for this device — open it once with Finder or Xcode, unlock the device, and tap Trust. ("@
            + detail + ")"@,
{
}

/// The devices on USB come first, in the order they were printed; of the network's, each
/// that is not on USB comes as often and in the order that it was printed.
pub proof fn law_devices_in_order(
    usb: Seq<char>,
    network: Seq<char>,
    ids: Seq<Seq<char>>,
    known: Seq<Seq<char>>,
    id: Seq<char>,
    i: int,
)
    ensures
        0 <= i < filled(lines(usb)).len() ==> listed(usb, network)[i] == (
            filled(lines(usb))[i],
            Transport::Usb,
        ),
        listed(usb, network).skip(filled(lines(usb)).len() as int) == others(
            filled(lines(network)),
            filled(lines(usb)),
        ).map_values(|u: Seq<char>| (u, Transport::Network)),
        others(seq![], known).len() == 0,
        others(ids.push(id), known) == (if known.contains(id) {
            others(ids, known)
        } else {
            others(ids, known).push(id)
        }),
{
    assert(ids.push(id).drop_last() =~= ids);
    let wired = filled(lines(usb));
    let rest = others(filled(lines(network)), wired).map_values(
        |u: Seq<char>| (u, Transport::Network),
    );
    assert(listed(usb, network).skip(wired.len() as int) =~= rest);
}

} // verus!
