//! What is shown while a transfer goes on.
use vstd::prelude::*;

use crate::binary64::{human, human_bytes};
use crate::text::{decimal, decimal_text};

verus! {

/// What a notification that asks for the user is headed with.
pub const ATTENTION_TITLE: &'static str = "Cradle needs your attention";

/// What a notification that asks for the user says.
pub const ATTENTION_MESSAGE: &'static str = "Unlock your iPhone/iPad now — it's asking for Face ID or your passcode to continue the backup.";

/// What the terminal says while the device waits for the user.
pub const ATTENTION_LINE: &'static str = "\n>>> Look at your device now — enter your passcode (or use Face ID/Touch ID) to let the backup continue. <<<";

/// What the terminal says once the device goes on.
pub const CONTINUING_LINE: &'static str = "Thanks — continuing.";

/// `n` blanks.
pub open spec fn blanks(n: nat) -> Seq<char> {
    Seq::new(n, |i: int| ' ')
}

/// A text filled up with blanks behind it.
pub open spec fn left_aligned(s: Seq<char>, width: nat) -> Seq<char> {
    s + blanks(
        if s.len() < width {
            (width - s.len()) as nat
        } else {
            0
        },
    )
}

/// A text filled up with blanks in front of it.
pub open spec fn right_aligned(s: Seq<char>, width: nat) -> Seq<char> {
    blanks(
        if s.len() < width {
            (width - s.len()) as nat
        } else {
            0
        },
    ) + s
}

/// As many blanks as a text is shorter than `width`.
fn filler(s: &str, width: usize) -> (out: String)
    ensures
        out@ == blanks(
            if s@.len() < width {
                (width - s@.len()) as nat
            } else {
                0
            },
        ),
{
    let n: usize = s.unicode_len();
    let mut out = String::new();
    let mut i: usize = n;
    assert(out@ =~= blanks(0));
    while i < width
        invariant
            n == s@.len(),
            n <= i,
            i <= width || i == n,
            out@ == blanks((i - n) as nat),
        decreases width - i,
    {
        out.push(' ');
        assert(out@ =~= blanks((i + 1 - n) as nat));
        i = i + 1;
    }
    out
}

/// A text filled up with blanks behind it.
pub fn align_left(s: &str, width: usize) -> (out: String)
    ensures
        out@ == left_aligned(s@, width as nat),
{
    s.to_owned().concat(filler(s, width).as_str())
}

/// A text filled up with blanks in front of it.
pub fn align_right(s: &str, width: usize) -> (out: String)
    ensures
        out@ == right_aligned(s@, width as nat),
{
    filler(s, width).concat(s)
}

/// A number with two digits at least.
pub open spec fn two_digits(n: nat) -> Seq<char> {
    if n < 10 {
        "0"@ + decimal(n)
    } else {
        decimal(n)
    }
}

/// A number with two digits at least.
fn two_digit_text(n: u64) -> (out: String)
    ensures
        out@ == two_digits(n as nat),
{
    if n < 10 {
        "0".to_owned().concat(decimal_text(n).as_str())
    } else {
        decimal_text(n)
    }
}

/// A duration in hours, minutes and seconds.
pub open spec fn clock(seconds: nat) -> Seq<char> {
    two_digits(seconds / 3600) + ":"@ + two_digits(seconds % 3600 / 60) + ":"@ + two_digits(
        seconds % 60,
    )
}

/// A duration in hours, minutes and seconds.
pub fn format_duration(seconds: u64) -> (out: String)
    ensures
        out@ == clock(seconds as nat),
{
    two_digit_text(seconds / 3600).concat(":").concat(
        two_digit_text(seconds % 3600 / 60).as_str(),
    ).concat(":").concat(two_digit_text(seconds % 60).as_str())
}

/// A progress line in a terminal: how far a transfer is, with real numbers.
#[derive(Debug)]
pub struct TerminalProgress {
    /// How many files there were so far.
    pub files: u32,
}

/// The numbers of a progress line. The share done comes as it is to be shown,
/// in five places and with one decimal.
#[derive(Debug)]
pub struct ProgressNumbers {
    pub percent: Option<String>,
    pub bytes_per_second: u64,
    pub bytes_done: u64,
    pub seconds_left: Option<u64>,
}

impl TerminalProgress {
    /// A line for a transfer that starts.
    pub fn new() -> (p: TerminalProgress)
        ensures
            p.files == 0,
    {
        TerminalProgress { files: 0 }
    }

    /// Takes in that there was another file.
    pub fn on_file(&mut self, file_count: u32)
        ensures
            final(self).files == file_count,
    {
        self.files = file_count;
    }

    /// What the line shows: it starts by clearing the one before.
    pub open spec fn shown(&self, n: ProgressNumbers) -> Seq<char> {
        "\r\x1b[Kfiles "@ + right_aligned(decimal(self.files as nat), 6) + "  "@ + (
        match n.percent {
            Some(p) => p@ + "%"@,
            None => "  ?  %"@,
        }) + "  "@ + human(n.bytes_per_second as nat) + "/s  "@ + human(n.bytes_done as nat)
            + " moved  eta "@ + (match n.seconds_left {
            Some(s) => clock(s as nat),
            None => "?"@,
        })
    }

    /// What the line shows.
    pub fn on_progress(&self, n: &ProgressNumbers) -> (line: String)
        ensures
            line@ == self.shown(*n),
    {
        let percent = match &n.percent {
            Some(p) => p.clone().concat("%"),
            None => "  ?  %".to_owned(),
        };
        let eta = match n.seconds_left {
            Some(s) => format_duration(s),
            None => "?".to_owned(),
        };
        "\r\x1b[Kfiles ".to_owned().concat(
            align_right(decimal_text(self.files as u64).as_str(), 6).as_str(),
        ).concat("  ").concat(percent.as_str()).concat("  ").concat(
            human_bytes(n.bytes_per_second).as_str(),
        ).concat("/s  ").concat(human_bytes(n.bytes_done).as_str()).concat(
            " moved  eta ",
        ).concat(eta.as_str())
    }
}

/// A text is filled up to the width and never cut: behind where it is to stand left,
/// in front where it is to stand right.
pub proof fn law_aligned(s: Seq<char>, width: nat, i: int)
    ensures
        ({
            let more = if s.len() < width {
                width - s.len()
            } else {
                0
            };
            &&& left_aligned(s, width).len() == s.len() + more
            &&& left_aligned(s, width).take(s.len() as int) == s
            &&& s.len() <= i < left_aligned(s, width).len() ==> left_aligned(s, width)[i] == ' '
            &&& right_aligned(s, width).len() == s.len() + more
            &&& right_aligned(s, width).skip(more) == s
            &&& 0 <= i < more ==> right_aligned(s, width)[i] == ' '
        }),
{
    let more = if s.len() < width {
        width - s.len()
    } else {
        0
    };
    assert(left_aligned(s, width).take(s.len() as int) =~= s);
    assert(right_aligned(s, width).skip(more) =~= s);
}

/// A duration is shown as hours, minutes and seconds, each with two digits at least.
pub proof fn law_clock(hours: nat, minutes: nat, seconds: nat)
    requires
        minutes < 60,
        seconds < 60,
    ensures
        clock(3600 * hours + 60 * minutes + seconds) == two_digits(hours) + ":"@ + two_digits(
            minutes,
        ) + ":"@ + two_digits(seconds),
        hours < 10 ==> two_digits(hours) == "0"@ + decimal(hours),
        hours >= 10 ==> two_digits(hours) == decimal(hours),
{
    let n = 3600 * hours + 60 * minutes + seconds;
    assert(n / 3600 == hours);
    assert(n % 3600 == 60 * minutes + seconds);
    assert(n % 3600 / 60 == minutes);
    assert(n % 60 == seconds);
}

/// A progress line shows the files, the share done, the speed, what has moved and what
/// is left, in that order; what is not known is a question mark.
pub proof fn law_progress_line(p: TerminalProgress, n: ProgressNumbers)
    ensures
        n.percent matches Some(share) ==> (n.seconds_left matches Some(left) ==> p.shown(n)
            == "\r\x1b[Kfiles "@ + right_aligned(decimal(p.files as nat), 6) + "  "@ + (share@ + "%"@)
            + "  "@ + human(n.bytes_per_second as nat) + "/s  "@ + human(n.bytes_done as nat)
            + " moved  eta "@ + clock(left as nat)),
        n.percent is None && n.seconds_left is None ==> p.shown(n) == "\r\x1b[Kfiles "@
            + right_aligned(decimal(p.files as nat), 6) + "  "@ + "  ?  %"@ + "  "@ + human(
            n.bytes_per_second as nat,
        ) + "/s  "@ + human(n.bytes_done as nat) + " moved  eta "@ + "?"@,
{
}

} // verus!
