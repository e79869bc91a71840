//! The dates of property lists: which of them can be held.
//!
//! A list is binary, or XML, or starts as text and holds no dates. The dates of
//! an XML list stand in elements of their own, among comments, sections,
//! instructions, document types and other tags.
use vstd::prelude::*;

verus! {

// --- bytes ---------------------------------------------------------------------------------

/// `<`
pub const OPEN: u8 = 60;

/// `>`
pub const CLOSE: u8 = 62;

/// `/`
pub const SLASH: u8 = 47;

/// `!`
pub const BANG: u8 = 33;

/// `?`
pub const QUERY: u8 = 63;

/// `-`
pub const DASH: u8 = 45;

/// `[`
pub const BRACKET: u8 = 91;

/// `]`
pub const END_BRACKET: u8 = 93;

/// `"`
pub const QUOTE: u8 = 34;

/// `'`
pub const APOSTROPHE: u8 = 39;

/// `&`
pub const AND: u8 = 38;

/// `;`
pub const SEMICOLON: u8 = 59;

/// `#`
pub const HASH: u8 = 35;

/// `:`
pub const COLON: u8 = 58;

/// `.`
pub const DOT: u8 = 46;

/// `0`
pub const ZERO: u8 = 48;

/// `9`
pub const NINE: u8 = 57;

// --- a date --------------------------------------------------------------------------------

/// Whether `b` is a digit.
pub open spec fn is_digit(b: u8) -> bool {
    ZERO <= b <= NINE
}

/// The number that the two digits at `at` make; 100 where they are none.
pub open spec fn two_digits(text: Seq<u8>, at: int) -> int {
    if is_digit(text[at]) && is_digit(text[at + 1]) {
        10 * (text[at] - ZERO) + (text[at + 1] - ZERO)
    } else {
        100
    }
}

/// `9999-12-31`, the last day of which a date can be held.
pub open spec fn last_day() -> Seq<u8> {
    seq![57u8, 57, 57, 57, 45, 49, 50, 45, 51, 49]
}

/// Whether a date lies past the last day once it is taken to UTC: it is
/// `9999-12-31Thh:mm:ss-hh:mm`, with any one ASCII character for the `T` and
/// perhaps a fraction of a second, and its offset takes it over midnight.
pub open spec fn past_last_day(text: Seq<u8>) -> bool {
    let n = text.len() as int;
    let hour = two_digits(text, 11);
    let minute = two_digits(text, 14);
    let second = two_digits(text, 17);
    let offset_hour = two_digits(text, n - 5);
    let offset_minute = two_digits(text, n - 2);
    &&& n >= 25
    &&& text.take(10) == last_day()
    &&& text[10] < 128
    &&& text[13] == COLON && text[16] == COLON && text[n - 6] == DASH && text[n - 3] == COLON
    &&& hour < 24 && minute < 60 && second < 60 && offset_hour < 24 && offset_minute < 60
    &&& n == 25 || (n > 26 && text[19] == DOT && forall|k: int|
        20 <= k < n - 6 ==> is_digit(#[trigger] text[k]))
    &&& 60 * (hour + offset_hour) + minute + offset_minute >= 24 * 60
}

/// Whether `b` is a digit.
fn digit(b: u8) -> (r: bool)
    ensures
        r == is_digit(b),
{
    ZERO <= b && b <= NINE
}

/// The number that the two digits at `at` make.
fn read_two(text: &Vec<u8>, at: usize) -> (r: u32)
    requires
        at + 1 < text@.len(),
    ensures
        r == two_digits(text@, at as int),
        r <= 100,
{
    let n = text.len();
    assert(at + 1 < n);
    if digit(text[at]) && digit(text[at + 1]) {
        10 * ((text[at] - ZERO) as u32) + ((text[at + 1] - ZERO) as u32)
    } else {
        100
    }
}

/// Whether a text starts with the last day.
fn is_on_last_day(text: &Vec<u8>) -> (r: bool)
    requires
        text@.len() >= 10,
    ensures
        r == (text@.take(10) == last_day()),
{
    let r = text[0] == 57 && text[1] == 57 && text[2] == 57 && text[3] == 57 && text[4]
        == 45 && text[5] == 49 && text[6] == 50 && text[7] == 45 && text[8] == 51
        && text[9] == 49;
    proof {
        let day = text@.take(10);
        let last = last_day();
        assert(forall|k: int| 0 <= k < 10 ==> day[k] == text@[k]);
        if r {
            assert(day =~= last);
        }
        if day == last {
            assert(day[0] == last[0] && day[1] == last[1] && day[2] == last[2] && day[3]
                == last[3] && day[4] == last[4]);
            assert(day[5] == last[5] && day[6] == last[6] && day[7] == last[7] && day[8]
                == last[8] && day[9] == last[9]);
        }
    }
    r
}

/// Whether a text may end a clock: there is no fraction of a second, or one of
/// digits, before the offset at its end.
fn has_fraction_or_none(text: &Vec<u8>) -> (r: bool)
    requires
        text@.len() >= 25,
    ensures
        r == (text@.len() == 25 || (text@.len() > 26 && text@[19] == DOT && forall|k: int|
            20 <= k < text@.len() - 6 ==> is_digit(#[trigger] text@[k]))),
{
    if text.len() == 25 {
        return true;
    }
    if text.len() == 26 || text[19] != DOT {
        return false;
    }
    let mut i: usize = 20;
    while i < text.len() - 6
        invariant
            text@.len() > 26,
            20 <= i <= text@.len() - 6,
            forall|k: int| 20 <= k < i ==> is_digit(#[trigger] text@[k]),
        decreases text@.len() - i,
    {
        if !digit(text[i]) {
            return false;
        }
        i = i + 1;
    }
    true
}

/// Whether a date lies past the last day once it is taken to UTC.
fn lies_past(text: &Vec<u8>) -> (r: bool)
    ensures
        r == past_last_day(text@),
{
    let n = text.len();
    if n < 25 || !is_on_last_day(text) || !has_fraction_or_none(text) {
        return false;
    }
    if text[10] >= 128 || text[13] != COLON || text[16] != COLON || text[n - 6] != DASH || text[n - 3] != COLON {
        return false;
    }
    let hour = read_two(text, 11);
    let minute = read_two(text, 14);
    let second = read_two(text, 17);
    let offset_hour = read_two(text, n - 5);
    let offset_minute = read_two(text, n - 2);
    hour < 24 && minute < 60 && second < 60 && offset_hour < 24 && offset_minute < 60 && 60 * (hour
        + offset_hour) + minute + offset_minute >= 24 * 60
}

// --- references ------------------------------------------------------------------------------

/// What a digit counts, in any base up to sixteen; 255 where `b` is none.
pub open spec fn digit_value(b: u8) -> int {
    if is_digit(b) {
        b - 48
    } else if 97 <= b <= 102 {
        b - 87
    } else if 65 <= b <= 70 {
        b - 55
    } else {
        255
    }
}

/// The number written from `at` to `to`, after `before` was read; 255 where it
/// is no number, or is of no ASCII character.
pub open spec fn ascii_code(bytes: Seq<u8>, at: int, to: int, hex: bool, before: int) -> int
    decreases to - at,
{
    if at >= to {
        before
    } else {
        let d = digit_value(bytes[at]);
        let now = if hex {
            16 * before + d
        } else {
            10 * before + d
        };
        if now >= 128 || (!hex && d >= 10) {
            255
        } else {
            ascii_code(bytes, at + 1, to, hex, now)
        }
    }
}

/// The byte that the reference from `from` to `to` stands for: that of the
/// character it numbers, or of one of the five that have names; none where the
/// name is another. 255, which no date holds, stands for a character that is not
/// ASCII, and for a number of none.
pub open spec fn referred(bytes: Seq<u8>, from: int, to: int) -> Option<u8> {
    let n = to - from;
    if n > 0 && bytes[from] == HASH {
        let code = if n > 1 && bytes[from + 1] == 120 {
            ascii_code(bytes, from + 2, to, true, 0)
        } else {
            ascii_code(bytes, from + 1, to, false, 0)
        };
        if code == 0 {
            Some(255)
        } else {
            Some(code as u8)
        }
    } else if n == 2 && bytes[from] == 108 && bytes[from + 1] == 116 {
        Some(OPEN)
    } else if n == 2 && bytes[from] == 103 && bytes[from + 1] == 116 {
        Some(CLOSE)
    } else if n == 3 && bytes[from] == 97 && bytes[from + 1] == 109 && bytes[from + 2] == 112 {
        Some(AND)
    } else if n == 4 && bytes[from] == 97 && bytes[from + 1] == 112 && bytes[from + 2] == 111
        && bytes[from + 3] == 115 {
        Some(APOSTROPHE)
    } else if n == 4 && bytes[from] == 113 && bytes[from + 1] == 117 && bytes[from + 2] == 111
        && bytes[from + 3] == 116 {
        Some(QUOTE)
    } else {
        None
    }
}

/// Where a reference whose `&` is before `from` ends: at the next `;`, or where
/// another `&` or a `<` comes first.
pub open spec fn reference_end(bytes: Seq<u8>, from: int) -> int
    decreases bytes.len() - from,
{
    if from >= bytes.len() || bytes[from] == SEMICOLON || bytes[from] == AND || bytes[from]
        == OPEN {
        from
    } else {
        reference_end(bytes, from + 1)
    }
}

/// What a digit counts.
fn value_of(b: u8) -> (r: u32)
    ensures
        r == digit_value(b),
        r <= 255,
{
    if digit(b) {
        (b - 48) as u32
    } else if 97 <= b && b <= 102 {
        (b - 87) as u32
    } else if 65 <= b && b <= 70 {
        (b - 55) as u32
    } else {
        255
    }
}

/// The number written from `at` to `to`.
fn read_code(bytes: &[u8], at: usize, to: usize, hex: bool) -> (r: u32)
    requires
        to <= bytes@.len(),
    ensures
        r == ascii_code(bytes@, at as int, to as int, hex, 0),
        r <= 255,
{
    let mut code: u32 = 0;
    let mut i: usize = at;
    while i < to
        invariant
            at <= i,
            to <= bytes@.len(),
            code < 128,
            ascii_code(bytes@, at as int, to as int, hex, 0) == ascii_code(
                bytes@,
                i as int,
                to as int,
                hex,
                code as int,
            ),
        decreases to - i,
    {
        let d = value_of(bytes[i]);
        let now: u32 = if hex {
            16 * code + d
        } else {
            10 * code + d
        };
        if now >= 128 || (!hex && d >= 10) {
            return 255;
        }
        code = now;
        i = i + 1;
    }
    code
}

/// The byte that the reference from `from` to `to` stands for.
fn read_reference(bytes: &[u8], from: usize, to: usize) -> (r: Option<u8>)
    requires
        from <= to <= bytes@.len(),
    ensures
        r == referred(bytes@, from as int, to as int),
{
    let n: usize = to - from;
    if n > 0 && bytes[from] == HASH {
        let code = if n > 1 && bytes[from + 1] == 120 {
            read_code(bytes, from + 2, to, true)
        } else {
            read_code(bytes, from + 1, to, false)
        };
        if code == 0 {
            Some(255)
        } else {
            Some(code as u8)
        }
    } else if n == 2 && bytes[from] == 108 && bytes[from + 1] == 116 {
        Some(OPEN)
    } else if n == 2 && bytes[from] == 103 && bytes[from + 1] == 116 {
        Some(CLOSE)
    } else if n == 3 && bytes[from] == 97 && bytes[from + 1] == 109 && bytes[from + 2] == 112 {
        Some(AND)
    } else if n == 4 && bytes[from] == 97 && bytes[from + 1] == 112 && bytes[from + 2] == 111
        && bytes[from + 3] == 115 {
        Some(APOSTROPHE)
    } else if n == 4 && bytes[from] == 113 && bytes[from + 1] == 117 && bytes[from + 2] == 111
        && bytes[from + 3] == 116 {
        Some(QUOTE)
    } else {
        None
    }
}

/// Where a reference ends.
fn find_reference_end(bytes: &[u8], from: usize) -> (end: usize)
    requires
        from <= bytes@.len(),
    ensures
        end == reference_end(bytes@, from as int),
        from <= end <= bytes@.len(),
{
    let mut i: usize = from;
    while i < bytes.len() && bytes[i] != SEMICOLON && bytes[i] != AND && bytes[i] != OPEN
        invariant
            from <= i <= bytes@.len(),
            reference_end(bytes@, from as int) == reference_end(bytes@, i as int),
        decreases bytes@.len() - i,
    {
        i = i + 1;
    }
    i
}

// --- markup ----------------------------------------------------------------------------------

/// What ends a stretch of an XML list that is passed over.
#[derive(Debug, Clone, Copy, PartialEq, Eq, Structural)]
pub enum Mark {
    /// `-->`
    Comment,
    /// `]]>`
    Section,
    /// `?>`
    Instruction,
}

impl Mark {
    /// How long the mark is.
    pub open spec fn size(self) -> int {
        match self {
            Mark::Comment => 3,
            Mark::Section => 3,
            Mark::Instruction => 2,
        }
    }

    /// Whether the mark stands at `at`.
    pub open spec fn stands(self, bytes: Seq<u8>, at: int) -> bool {
        at + self.size() <= bytes.len() && match self {
            Mark::Comment => bytes[at] == DASH && bytes[at + 1] == DASH && bytes[at + 2] == CLOSE,
            Mark::Section => bytes[at] == END_BRACKET && bytes[at + 1] == END_BRACKET && bytes[at
                + 2] == CLOSE,
            Mark::Instruction => bytes[at] == QUERY && bytes[at + 1] == CLOSE,
        }
    }
}

/// The place after the first such mark at or after `from`.
pub open spec fn after(bytes: Seq<u8>, from: int, mark: Mark) -> Option<int>
    decreases bytes.len() - from,
{
    if from >= bytes.len() {
        None
    } else if mark.stands(bytes, from) {
        Some(from + mark.size())
    } else {
        after(bytes, from + 1, mark)
    }
}

/// The place of the first `>` at or after `from` that is in no quotation marks;
/// with `subset` that of a `[`, where that comes first. `quote` is the mark that
/// was opened before `from`, 0 for none.
pub open spec fn closing(bytes: Seq<u8>, from: int, quote: u8, subset: bool) -> Option<int>
    decreases bytes.len() - from,
{
    if from >= bytes.len() {
        None
    } else if quote != 0 {
        closing(
            bytes,
            from + 1,
            if bytes[from] == quote {
                0
            } else {
                quote
            },
            subset,
        )
    } else if bytes[from] == CLOSE || (subset && bytes[from] == BRACKET) {
        Some(from)
    } else if bytes[from] == QUOTE || bytes[from] == APOSTROPHE {
        closing(bytes, from + 1, bytes[from], subset)
    } else {
        closing(bytes, from + 1, 0, subset)
    }
}

/// What comes of passing over the markup of a `<!` or a `<?`.
pub enum Passed {
    /// It ends before this place.
    To(usize),
    /// It is a document type with declarations of its own.
    Subset,
    /// It is not ended, or is of no known kind.
    Broken,
}

/// What comes of passing over markup, with a place of any size.
pub enum PassedView {
    To(int),
    Subset,
    Broken,
}

impl View for Passed {
    type V = PassedView;

    open spec fn view(&self) -> PassedView {
        match self {
            Passed::To(e) => PassedView::To(*e as int),
            Passed::Subset => PassedView::Subset,
            Passed::Broken => PassedView::Broken,
        }
    }
}

/// Whether a section, `<![CDATA[`, starts at `at`.
pub open spec fn starts_section(bytes: Seq<u8>, at: int) -> bool {
    &&& at + 8 < bytes.len()
    &&& bytes[at + 2] == BRACKET
    &&& bytes[at + 3] == 67
    &&& bytes[at + 4] == 68
    &&& bytes[at + 5] == 65
    &&& bytes[at + 6] == 84
    &&& bytes[at + 7] == 65
    &&& bytes[at + 8] == BRACKET
}

/// The markup of the `<!` or `<?` at `at`, passed over: an instruction, a
/// comment, a section or a document type.
pub open spec fn passed(bytes: Seq<u8>, at: int) -> PassedView {
    if bytes[at + 1] == QUERY {
        passed_to(after(bytes, at + 1, Mark::Instruction))
    } else if at + 3 < bytes.len() && bytes[at + 2] == DASH && bytes[at + 3] == DASH {
        passed_to(after(bytes, at + 4, Mark::Comment))
    } else if starts_section(bytes, at) {
        passed_to(after(bytes, at + 9, Mark::Section))
    } else if at + 2 < bytes.len() && (bytes[at + 2] == 68 || bytes[at + 2] == 100) {
        match closing(bytes, at + 2, 0, true) {
            Some(e) => if bytes[e] == BRACKET {
                PassedView::Subset
            } else {
                PassedView::To(e + 1)
            },
            None => PassedView::Broken,
        }
    } else {
        PassedView::Broken
    }
}

/// Markup that ends before a place, if it ends.
pub open spec fn passed_to(end: Option<int>) -> PassedView {
    match end {
        Some(e) => PassedView::To(e),
        None => PassedView::Broken,
    }
}

/// A mark is found at or after where it is looked for.
proof fn lemma_after(bytes: Seq<u8>, from: int, mark: Mark)
    ensures
        after(bytes, from, mark) matches Some(e) ==> from < e <= bytes.len(),
    decreases bytes.len() - from,
{
    if from < bytes.len() && !mark.stands(bytes, from) {
        lemma_after(bytes, from + 1, mark);
    }
}

/// The end of a tag is found at or after where it is looked for.
pub proof fn lemma_closing(bytes: Seq<u8>, from: int, quote: u8, subset: bool)
    ensures
        closing(bytes, from, quote, subset) matches Some(e) ==> from <= e < bytes.len(),
    decreases bytes.len() - from,
{
    if from < bytes.len() {
        lemma_closing(bytes, from + 1, 0, subset);
        lemma_closing(bytes, from + 1, quote, subset);
        lemma_closing(bytes, from + 1, bytes[from], subset);
    }
}

/// What is passed over ends after it starts.
pub proof fn lemma_passed(bytes: Seq<u8>, at: int)
    ensures
        passed(bytes, at) matches PassedView::To(e) ==> at < e <= bytes.len(),
{
    lemma_after(bytes, at + 1, Mark::Instruction);
    lemma_after(bytes, at + 4, Mark::Comment);
    lemma_after(bytes, at + 9, Mark::Section);
    lemma_closing(bytes, at + 2, 0, true);
}

/// A reference ends at or after where it starts.
pub proof fn lemma_reference_end(bytes: Seq<u8>, from: int)
    requires
        from <= bytes.len(),
    ensures
        from <= reference_end(bytes, from) <= bytes.len(),
    decreases bytes.len() - from,
{
    if from < bytes.len() && bytes[from] != SEMICOLON && bytes[from] != AND && bytes[from]
        != OPEN {
        lemma_reference_end(bytes, from + 1);
    }
}

impl Mark {
    /// Whether the mark stands at `at`.
    fn is_at(self, bytes: &[u8], at: usize) -> (r: bool)
        requires
            at <= bytes@.len(),
        ensures
            r == self.stands(bytes@, at as int),
    {
        let left: usize = bytes.len() - at;
        match self {
            Mark::Comment => left >= 3 && bytes[at] == DASH && bytes[at + 1] == DASH && bytes[at
                + 2] == CLOSE,
            Mark::Section => left >= 3 && bytes[at] == END_BRACKET && bytes[at + 1] == END_BRACKET
                && bytes[at + 2] == CLOSE,
            Mark::Instruction => left >= 2 && bytes[at] == QUERY && bytes[at + 1] == CLOSE,
        }
    }

    /// How long the mark is.
    fn len(self) -> (r: usize)
        ensures
            r == self.size(),
    {
        match self {
            Mark::Comment => 3,
            Mark::Section => 3,
            Mark::Instruction => 2,
        }
    }
}

/// The place after the first such mark at or after `from`, passed to.
fn pass_to(bytes: &[u8], from: usize, mark: Mark) -> (r: Passed)
    ensures
        r@ == passed_to(after(bytes@, from as int, mark)),
{
    let mut i: usize = from;
    while i < bytes.len()
        invariant
            from <= i,
            after(bytes@, from as int, mark) == after(bytes@, i as int, mark),
        decreases bytes@.len() - i,
    {
        if mark.is_at(bytes, i) {
            return Passed::To(i + mark.len());
        }
        i = i + 1;
    }
    Passed::Broken
}

/// The place of the first `>` at or after `from` that is in no quotation marks;
/// with `subset` that of a `[`, where that comes first.
fn find_closing(bytes: &[u8], from: usize, subset: bool) -> (r: Option<usize>)
    ensures
        match r {
            Some(e) => closing(bytes@, from as int, 0, subset) == Some(e as int) && from <= e
                < bytes@.len(),
            None => closing(bytes@, from as int, 0, subset) is None,
        },
{
    let mut quote: u8 = 0;
    let mut i: usize = from;
    while i < bytes.len()
        invariant
            from <= i,
            closing(bytes@, from as int, 0, subset) == closing(bytes@, i as int, quote, subset),
        decreases bytes@.len() - i,
    {
        let b = bytes[i];
        if quote != 0 {
            if b == quote {
                quote = 0;
            }
        } else if b == CLOSE || (subset && b == BRACKET) {
            return Some(i);
        } else if b == QUOTE || b == APOSTROPHE {
            quote = b;
        }
        i = i + 1;
    }
    None
}

/// Whether a section starts at `at`.
fn is_section(bytes: &[u8], at: usize) -> (r: bool)
    requires
        at < bytes@.len(),
    ensures
        r == starts_section(bytes@, at as int),
{
    let left: usize = bytes.len() - at;
    left > 8 && bytes[at + 2] == BRACKET && bytes[at + 3] == 67 && bytes[at + 4] == 68 && bytes[at
        + 5] == 65 && bytes[at + 6] == 84 && bytes[at + 7] == 65 && bytes[at + 8] == BRACKET
}

/// The markup of the `<!` or `<?` at `at`, passed over.
fn pass(bytes: &[u8], at: usize) -> (r: Passed)
    requires
        at + 1 < bytes@.len(),
    ensures
        r@ == passed(bytes@, at as int),
        r matches Passed::To(e) ==> at < e <= bytes@.len(),
{
    proof {
        lemma_passed(bytes@, at as int);
    }
    let left: usize = bytes.len() - at;
    if bytes[at + 1] == QUERY {
        pass_to(bytes, at + 1, Mark::Instruction)
    } else if left > 3 && bytes[at + 2] == DASH && bytes[at + 3] == DASH {
        pass_to(bytes, at + 4, Mark::Comment)
    } else if is_section(bytes, at) {
        pass_to(bytes, at + 9, Mark::Section)
    } else if left > 2 && (bytes[at + 2] == 68 || bytes[at + 2] == 100) {
        match find_closing(bytes, at + 2, true) {
            Some(e) => if bytes[e] == BRACKET {
                Passed::Subset
            } else {
                Passed::To(e + 1)
            },
            None => Passed::Broken,
        }
    } else {
        Passed::Broken
    }
}

// --- date elements ---------------------------------------------------------------------------

/// Whether the date element whose text so far is `text`, and goes on at `at`,
/// holds a date past the last day. Its text goes on to the next end tag, through
/// references, and past comments, sections and instructions; it is none where
/// another tag opens first, a reference is not ended, or the end never comes. One
/// with a document type in it that has declarations of its own counts as past.
pub open spec fn closes_past(bytes: Seq<u8>, at: int, text: Seq<u8>) -> bool
    decreases bytes.len() - at,
{
    if at >= bytes.len() {
        false
    } else if bytes[at] == OPEN {
        if at + 1 >= bytes.len() {
            false
        } else if bytes[at + 1] == SLASH {
            past_last_day(text)
        } else if bytes[at + 1] == BANG || bytes[at + 1] == QUERY {
            proof {
                lemma_passed(bytes, at);
            }
            match passed(bytes, at) {
                PassedView::To(e) => closes_past(bytes, e, text),
                PassedView::Subset => true,
                PassedView::Broken => false,
            }
        } else {
            false
        }
    } else if bytes[at] == AND {
        proof {
            lemma_reference_end(bytes, at + 1);
        }
        let end = reference_end(bytes, at + 1);
        if end >= bytes.len() || bytes[end] != SEMICOLON {
            false
        } else {
            match referred(bytes, at + 1, end) {
                Some(b) => closes_past(bytes, end + 1, text.push(b)),
                None => closes_past(bytes, end + 1, text),
            }
        }
    } else {
        closes_past(bytes, at + 1, text.push(bytes[at]))
    }
}

/// Where the name that starts at `from` ends: at a blank, or at `to`.
pub open spec fn name_end(bytes: Seq<u8>, from: int, to: int) -> int
    decreases to - from,
{
    if from >= to || bytes[from] == 32 || bytes[from] == 9 || bytes[from] == 10 || bytes[from]
        == 13 {
        from
    } else {
        name_end(bytes, from + 1, to)
    }
}

/// Whether the name from `from` to `to` is that of a date element: `date`, below
/// any prefix.
pub open spec fn names_date(bytes: Seq<u8>, from: int, to: int) -> bool {
    &&& to - from >= 4
    &&& bytes[to - 4] == 100
    &&& bytes[to - 3] == 97
    &&& bytes[to - 2] == 116
    &&& bytes[to - 1] == 101
    &&& to - from == 4 || bytes[to - 5] == COLON
}

/// Whether the tag at `at` opens a date element that holds a date past the last
/// day.
pub open spec fn opens_past(bytes: Seq<u8>, at: int) -> bool {
    match closing(bytes, at + 1, 0, false) {
        Some(e) => {
            &&& bytes[e - 1] != SLASH
            &&& names_date(bytes, at + 1, name_end(bytes, at + 1, e))
            &&& closes_past(bytes, e + 1, seq![])
        },
        None => false,
    }
}

/// Whether the element whose text goes on at `at` holds a date past the last day.
fn ends_past(bytes: &[u8], at: usize) -> (r: bool)
    requires
        at <= bytes@.len(),
    ensures
        r == closes_past(bytes@, at as int, seq![]),
{
    let mut text: Vec<u8> = Vec::new();
    let mut i: usize = at;
    assert(text@ =~= seq![]);
    while i < bytes.len()
        invariant
            i <= bytes@.len(),
            closes_past(bytes@, at as int, seq![]) == closes_past(bytes@, i as int, text@),
        decreases bytes@.len() - i,
    {
        let left: usize = bytes.len() - i;
        if bytes[i] == OPEN {
            if left == 1 {
                return false;
            }
            if bytes[i + 1] == SLASH {
                return lies_past(&text);
            }
            if bytes[i + 1] != BANG && bytes[i + 1] != QUERY {
                return false;
            }
            match pass(bytes, i) {
                Passed::To(e) => {
                    i = e;
                },
                Passed::Subset => {
                    return true;
                },
                Passed::Broken => {
                    return false;
                },
            }
        } else if bytes[i] == AND {
            let end = find_reference_end(bytes, i + 1);
            if end == bytes.len() || bytes[end] != SEMICOLON {
                return false;
            }
            match read_reference(bytes, i + 1, end) {
                Some(b) => {
                    text.push(b);
                },
                None => {},
            }
            i = end + 1;
        } else {
            text.push(bytes[i]);
            i = i + 1;
        }
    }
    false
}

/// Where the name that starts at `from` ends.
fn find_name_end(bytes: &[u8], from: usize, to: usize) -> (end: usize)
    requires
        from <= to <= bytes@.len(),
    ensures
        end == name_end(bytes@, from as int, to as int),
        from <= end <= to,
{
    let mut i: usize = from;
    while i < to && bytes[i] != 32 && bytes[i] != 9 && bytes[i] != 10 && bytes[i] != 13
        invariant
            from <= i <= to <= bytes@.len(),
            name_end(bytes@, from as int, to as int) == name_end(bytes@, i as int, to as int),
        decreases to - i,
    {
        i = i + 1;
    }
    i
}

/// Whether the name from `from` to `to` is that of a date element.
fn is_date_name(bytes: &[u8], from: usize, to: usize) -> (r: bool)
    requires
        from <= to <= bytes@.len(),
    ensures
        r == names_date(bytes@, from as int, to as int),
{
    let n: usize = to - from;
    n >= 4 && bytes[to - 4] == 100 && bytes[to - 3] == 97 && bytes[to - 2] == 116 && bytes[to - 1]
        == 101 && (n == 4 || bytes[to - 5] == COLON)
}

/// Whether the tag at `at` opens a date element that holds a date past the last
/// day.
fn starts_past(bytes: &[u8], at: usize) -> (r: bool)
    requires
        at < bytes@.len(),
    ensures
        r == opens_past(bytes@, at as int),
{
    let n = bytes.len();
    assert(at < n);
    match find_closing(bytes, at + 1, false) {
        Some(e) => bytes[e - 1] != SLASH && is_date_name(
            bytes,
            at + 1,
            find_name_end(bytes, at + 1, e),
        ) && ends_past(bytes, e + 1),
        None => false,
    }
}

// --- lists -----------------------------------------------------------------------------------

/// Whether a property list is binary: it starts with `bplist00`.
pub open spec fn is_binary(bytes: Seq<u8>) -> bool {
    bytes.len() >= 8 && bytes.take(8) == seq![98u8, 112, 108, 105, 115, 116, 48, 48]
}

/// Whether there is text at `at`, or after blanks, before any markup or
/// reference.
pub open spec fn starts_as_text(bytes: Seq<u8>, at: int) -> bool
    decreases bytes.len() - at,
{
    if at >= bytes.len() || bytes[at] == OPEN || bytes[at] == AND {
        false
    } else {
        (32 < bytes[at] && bytes[at] < 127) || starts_as_text(bytes, at + 1)
    }
}

/// Whether a tag may open at `at`: there is a `<`, and it is not that of an end
/// tag, of an instruction, or of a comment or another of their kind.
pub open spec fn may_open(bytes: Seq<u8>, at: int) -> bool {
    bytes[at] == OPEN && at + 1 < bytes.len() && bytes[at + 1] != SLASH && bytes[at + 1] != BANG
        && bytes[at + 1] != QUERY
}

/// Whether no tag at or after `at` opens a date element that holds a date past
/// the last day, wherever tags may be.
pub open spec fn all_fit(bytes: Seq<u8>, at: int) -> bool {
    forall|k: int|
        at <= k < bytes.len() && #[trigger] may_open(bytes, k) ==> !opens_past(bytes, k)
}

/// Whether every date that an XML list holds at or after `at` can be held. Where
/// markup is not ended, the list ends. Behind a document type with declarations
/// of its own, every `<` may be that of a tag.
pub open spec fn fits_from(bytes: Seq<u8>, at: int) -> bool
    decreases bytes.len() - at,
{
    if at >= bytes.len() {
        true
    } else if bytes[at] != OPEN {
        fits_from(bytes, at + 1)
    } else if at + 1 >= bytes.len() {
        true
    } else if bytes[at + 1] == BANG || bytes[at + 1] == QUERY {
        proof {
            lemma_passed(bytes, at);
        }
        match passed(bytes, at) {
            PassedView::To(e) => fits_from(bytes, e),
            PassedView::Subset => all_fit(bytes, at + 1),
            PassedView::Broken => true,
        }
    } else {
        proof {
            lemma_closing(bytes, at + 1, 0, false);
        }
        (may_open(bytes, at) ==> !opens_past(bytes, at)) && match closing(
            bytes,
            at + 1,
            0,
            false,
        ) {
            Some(e) => fits_from(bytes, e + 1),
            None => true,
        }
    }
}

/// Whether every date of a property list can be held. In a binary list any can
/// that can be read, and one that starts as text has none.
pub open spec fn dates_fit(bytes: Seq<u8>) -> bool {
    is_binary(bytes) || starts_as_text(bytes, 0) || fits_from(bytes, 0)
}

/// Whether a property list is binary.
fn starts_binary(bytes: &[u8]) -> (r: bool)
    ensures
        r == is_binary(bytes@),
{
    if bytes.len() < 8 {
        return false;
    }
    let r = bytes[0] == 98 && bytes[1] == 112 && bytes[2] == 108 && bytes[3] == 105 && bytes[4]
        == 115 && bytes[5] == 116 && bytes[6] == 48 && bytes[7] == 48;
    proof {
        let head = bytes@.take(8);
        let magic = seq![98u8, 112, 108, 105, 115, 116, 48, 48];
        assert(magic[0] == 98 && magic[1] == 112 && magic[2] == 108 && magic[3] == 105 && magic[4]
            == 115 && magic[5] == 116 && magic[6] == 48 && magic[7] == 48);
        assert(head[0] == bytes@[0] && head[1] == bytes@[1] && head[2] == bytes@[2] && head[3]
            == bytes@[3] && head[4] == bytes@[4] && head[5] == bytes@[5] && head[6] == bytes@[6]
            && head[7] == bytes@[7]);
        if r {
            assert(head =~= magic);
        }
    }
    r
}

/// Whether a property list starts as text.
fn is_text(bytes: &[u8]) -> (r: bool)
    ensures
        r == starts_as_text(bytes@, 0),
{
    let mut i: usize = 0;
    while i < bytes.len() && bytes[i] != OPEN && bytes[i] != AND
        invariant
            i <= bytes@.len(),
            starts_as_text(bytes@, 0) == starts_as_text(bytes@, i as int),
        decreases bytes@.len() - i,
    {
        if 32 < bytes[i] && bytes[i] < 127 {
            return true;
        }
        i = i + 1;
    }
    false
}

/// Whether a tag may open at `at`.
fn is_opening(bytes: &[u8], at: usize) -> (r: bool)
    requires
        at < bytes@.len(),
    ensures
        r == may_open(bytes@, at as int),
{
    bytes[at] == OPEN && bytes.len() - at > 1 && bytes[at + 1] != SLASH && bytes[at + 1] != BANG
        && bytes[at + 1] != QUERY
}

/// Whether no tag at or after `at` opens a date element that holds a date past
/// the last day.
fn none_starts_past(bytes: &[u8], at: usize) -> (r: bool)
    requires
        at <= bytes@.len(),
    ensures
        r == all_fit(bytes@, at as int),
{
    let mut i: usize = at;
    while i < bytes.len()
        invariant
            at <= i <= bytes@.len(),
            forall|k: int|
                at <= k < i && #[trigger] may_open(bytes@, k) ==> !opens_past(bytes@, k),
        decreases bytes@.len() - i,
    {
        if is_opening(bytes, i) && starts_past(bytes, i) {
            return false;
        }
        i = i + 1;
    }
    true
}

/// Whether every date of a property list can be held.
pub fn has_dates_that_fit(bytes: &[u8]) -> (r: bool)
    ensures
        r == dates_fit(bytes@),
{
    if starts_binary(bytes) || is_text(bytes) {
        return true;
    }
    let mut i: usize = 0;
    while i < bytes.len()
        invariant
            i <= bytes@.len(),
            !is_binary(bytes@),
            !starts_as_text(bytes@, 0),
            fits_from(bytes@, 0) == fits_from(bytes@, i as int),
        decreases bytes@.len() - i,
    {
        if bytes[i] != OPEN {
            i = i + 1;
        } else if bytes.len() - i == 1 {
            return true;
        } else if bytes[i + 1] == BANG || bytes[i + 1] == QUERY {
            match pass(bytes, i) {
                Passed::To(e) => {
                    i = e;
                },
                Passed::Subset => {
                    return none_starts_past(bytes, i + 1);
                },
                Passed::Broken => {
                    return true;
                },
            }
        } else {
            if is_opening(bytes, i) && starts_past(bytes, i) {
                return false;
            }
            match find_closing(bytes, i + 1, false) {
                Some(e) => {
                    i = e + 1;
                },
                None => {
                    return true;
                },
            }
        }
    }
    true
}

// --- laws ------------------------------------------------------------------------------------

/// The two digits of a number below a hundred.
pub open spec fn spelled(n: int) -> Seq<u8> {
    seq![(48 + n / 10) as u8, (48 + n % 10) as u8]
}

/// A time of the last day with an offset behind UTC lies past that day just when the
/// offset takes it to midnight or beyond.
pub proof fn law_offset_decides(
    sep: u8,
    hour: int,
    minute: int,
    second: int,
    offset_hour: int,
    offset_minute: int,
)
    requires
        sep < 128,
        0 <= hour < 24,
        0 <= minute < 60,
        0 <= second < 60,
        0 <= offset_hour < 24,
        0 <= offset_minute < 60,
    ensures
        past_last_day(
            seq![57u8, 57, 57, 57, 45, 49, 50, 45, 51, 49] + seq![sep] + spelled(hour) + seq![58u8]
                + spelled(minute) + seq![58u8] + spelled(second) + seq![45u8] + spelled(
                offset_hour,
            ) + seq![58u8] + spelled(offset_minute),
        ) <==> (60 * hour + minute) + (60 * offset_hour + offset_minute) >= 1440,
{
    let text = seq![57u8, 57, 57, 57, 45, 49, 50, 45, 51, 49] + seq![sep] + spelled(hour)
        + seq![58u8] + spelled(minute) + seq![58u8] + spelled(second) + seq![45u8] + spelled(
        offset_hour,
    ) + seq![58u8] + spelled(offset_minute);
    assert(text.len() == 25);
    assert(text.take(10) =~= last_day());
    assert(text[11] == 48 + hour / 10 && text[12] == 48 + hour % 10);
    assert(text[14] == 48 + minute / 10 && text[15] == 48 + minute % 10);
    assert(text[17] == 48 + second / 10 && text[18] == 48 + second % 10);
    assert(text[20] == 48 + offset_hour / 10 && text[21] == 48 + offset_hour % 10);
    assert(text[23] == 48 + offset_minute / 10 && text[24] == 48 + offset_minute % 10);
    assert(text[10] == sep && text[13] == 58 && text[16] == 58 && text[19] == 45 && text[22]
        == 58);
}

/// No other day, and no offset that is not behind UTC, lies past the last day.
pub proof fn law_other_dates_fit(text: Seq<u8>)
    ensures
        past_last_day(text) ==> text.len() >= 25 && text.take(10) == seq![
            57u8,
            57,
            57,
            57,
            45,
            49,
            50,
            45,
            51,
            49,
        ] && text[text.len() - 6] == 45,
{
}

/// A reference goes up to the first `;`, or to an `&` or `<` before it.
pub proof fn law_reference_end(bytes: Seq<u8>, from: int, end: int)
    requires
        0 <= from <= end <= bytes.len(),
        forall|i: int|
            from <= i < end ==> #[trigger] bytes[i] != 59 && bytes[i] != 38 && bytes[i] != 60,
        end < bytes.len() ==> bytes[end] == 59 || bytes[end] == 38 || bytes[end] == 60,
    ensures
        reference_end(bytes, from) == end,
    decreases end - from,
{
    if from < end {
        law_reference_end(bytes, from + 1, end);
    }
}

/// The five names stand for their characters; a number, in ten or in sixteen, for the
/// character with that number; any other name for none.
pub proof fn law_references(a: int, b: int)
    requires
        0 <= a < 10,
        0 <= b < 10,
        10 * a + b > 0,
    ensures
        referred(seq![108u8, 116], 0, 2) == Some(60u8),
        referred(seq![103u8, 116], 0, 2) == Some(62u8),
        referred(seq![97u8, 109, 112], 0, 3) == Some(38u8),
        referred(seq![97u8, 112, 111, 115], 0, 4) == Some(39u8),
        referred(seq![113u8, 117, 111, 116], 0, 4) == Some(34u8),
        referred(seq![35u8, (48 + a) as u8, (48 + b) as u8], 0, 3) == Some((10 * a + b) as u8),
        a < 8 ==> referred(seq![35u8, 120, (48 + a) as u8, (48 + b) as u8], 0, 4) == Some(
            (16 * a + b) as u8,
        ),
        referred(seq![120u8, (48 + a) as u8, (48 + b) as u8], 0, 3) is None,
{
    reveal_with_fuel(ascii_code, 4);
}

/// What is passed over ends behind the first of its marks.
pub proof fn law_first_mark(bytes: Seq<u8>, from: int, mark: Mark, at: int)
    requires
        0 <= from <= at < bytes.len(),
        mark.stands(bytes, at),
        forall|i: int| from <= i < at ==> !#[trigger] mark.stands(bytes, i),
    ensures
        after(bytes, from, mark) == Some(at + mark.size()),
    decreases at - from,
{
    if from < at {
        assert(!mark.stands(bytes, from));
        law_first_mark(bytes, from + 1, mark, at);
    }
}

/// The marks: `-->`, `]]>` and `?>`.
pub proof fn law_marks(bytes: Seq<u8>, at: int)
    requires
        0 <= at,
    ensures
        Mark::Comment.stands(bytes, at) <==> at + 3 <= bytes.len() && bytes.subrange(at, at + 3)
            == seq![45u8, 45, 62],
        Mark::Section.stands(bytes, at) <==> at + 3 <= bytes.len() && bytes.subrange(at, at + 3)
            == seq![93u8, 93, 62],
        Mark::Instruction.stands(bytes, at) <==> at + 2 <= bytes.len() && bytes.subrange(
            at,
            at + 2,
        ) == seq![63u8, 62],
        Mark::Comment.size() == 3,
        Mark::Section.size() == 3,
        Mark::Instruction.size() == 2,
{
    if at + 3 <= bytes.len() {
        let s = bytes.subrange(at, at + 3);
        assert(s[0] == bytes[at] && s[1] == bytes[at + 1] && s[2] == bytes[at + 2]);
        if Mark::Comment.stands(bytes, at) {
            assert(s =~= seq![45u8, 45, 62]);
        }
        if Mark::Section.stands(bytes, at) {
            assert(s =~= seq![93u8, 93, 62]);
        }
        if s == seq![45u8, 45, 62] {
            assert(s[0] == 45 && s[1] == 45 && s[2] == 62);
        }
        if s == seq![93u8, 93, 62] {
            assert(s[0] == 93 && s[1] == 93 && s[2] == 62);
        }
    }
    if at + 2 <= bytes.len() {
        let s = bytes.subrange(at, at + 2);
        assert(s[0] == bytes[at] && s[1] == bytes[at + 1]);
        if Mark::Instruction.stands(bytes, at) {
            assert(s =~= seq![63u8, 62]);
        }
        if s == seq![63u8, 62] {
            assert(s[0] == 63 && s[1] == 62);
        }
    }
}

/// A tag ends at its first `>`; what is in quotation marks does not count, and a document
/// type is cut short by a `[`.
pub proof fn law_tag_ends(bytes: Seq<u8>, from: int, end: int, subset: bool)
    requires
        0 <= from <= end < bytes.len(),
        bytes[end] == 62 || (subset && bytes[end] == 91),
        forall|i: int|
            from <= i < end ==> #[trigger] bytes[i] != 62 && bytes[i] != 34 && bytes[i] != 39
                && !(subset && bytes[i] == 91),
    ensures
        closing(bytes, from, 0, subset) == Some(end),
    decreases end - from,
{
    if from < end {
        law_tag_ends(bytes, from + 1, end, subset);
    }
}

/// What is quoted in a tag is passed over, up to the next mark of its kind.
pub proof fn law_quotes_are_passed(bytes: Seq<u8>, from: int, end: int, subset: bool)
    requires
        0 <= from < end < bytes.len(),
        bytes[from] == 34 || bytes[from] == 39,
        bytes[end] == bytes[from],
        forall|i: int| from < i < end ==> #[trigger] bytes[i] != bytes[from],
    ensures
        closing(bytes, from, 0, subset) == closing(bytes, end + 1, 0, subset),
{
    quoted_from(bytes, from + 1, end, bytes[from], subset);
}

/// From within quotation marks, their end is found.
proof fn quoted_from(bytes: Seq<u8>, from: int, end: int, quote: u8, subset: bool)
    requires
        0 <= from <= end < bytes.len(),
        quote != 0,
        bytes[end] == quote,
        forall|i: int| from <= i < end ==> #[trigger] bytes[i] != quote,
    ensures
        closing(bytes, from, quote, subset) == closing(bytes, end + 1, 0, subset),
    decreases end - from,
{
    if from < end {
        quoted_from(bytes, from + 1, end, quote, subset);
    }
}

/// A name ends at the first blank, or where the tag does.
pub proof fn law_name_ends(bytes: Seq<u8>, from: int, end: int, to: int)
    requires
        0 <= from <= end <= to <= bytes.len(),
        forall|i: int|
            from <= i < end ==> #[trigger] bytes[i] != 32 && bytes[i] != 9 && bytes[i] != 10
                && bytes[i] != 13,
        end < to ==> bytes[end] == 32 || bytes[end] == 9 || bytes[end] == 10 || bytes[end] == 13,
    ensures
        name_end(bytes, from, to) == end,
    decreases end - from,
{
    if from < end {
        law_name_ends(bytes, from + 1, end, to);
    }
}

/// A date element is called `date`, alone or behind a prefix and a colon.
pub proof fn law_date_names(prefix: Seq<u8>)
    ensures
        names_date(seq![100u8, 97, 116, 101], 0, 4),
        names_date(prefix + seq![58u8, 100, 97, 116, 101], 0, prefix.len() as int + 5),
        prefix.len() > 0 && prefix.last() != 58 ==> !names_date(
            prefix + seq![100u8, 97, 116, 101],
            0,
            prefix.len() as int + 4,
        ),
{
}

/// The text of an element without markup or references is the date it holds.
proof fn plain_text(bytes: Seq<u8>, at: int, end: int, text: Seq<u8>)
    requires
        0 <= at <= end,
        end + 1 < bytes.len(),
        bytes[end] == 60,
        bytes[end + 1] == 47,
        forall|i: int| at <= i < end ==> #[trigger] bytes[i] != 60 && bytes[i] != 38,
    ensures
        closes_past(bytes, at, text) == past_last_day(text + bytes.subrange(at, end)),
    decreases end - at,
{
    if at < end {
        plain_text(bytes, at + 1, end, text.push(bytes[at]));
        assert(text.push(bytes[at]) + bytes.subrange(at + 1, end) =~= text + bytes.subrange(
            at,
            end,
        ));
    } else {
        assert(text + bytes.subrange(at, end) =~= text);
    }
}

/// A `<date>` element holds a date past the last day just when its text is one.
pub proof fn law_date_elements(bytes: Seq<u8>, at: int, end: int)
    requires
        0 <= at,
        at + 6 <= end,
        end + 1 < bytes.len(),
        bytes.subrange(at, at + 6) == seq![60u8, 100, 97, 116, 101, 62],
        forall|i: int| at + 6 <= i < end ==> #[trigger] bytes[i] != 60 && bytes[i] != 38,
        bytes[end] == 60,
        bytes[end + 1] == 47,
    ensures
        opens_past(bytes, at) <==> past_last_day(bytes.subrange(at + 6, end)),
{
    let tag = bytes.subrange(at, at + 6);
    assert(tag[0] == 60 && tag[1] == 100 && tag[2] == 97 && tag[3] == 116 && tag[4] == 101
        && tag[5] == 62);
    assert(bytes[at + 1] == tag[1] && bytes[at + 2] == tag[2] && bytes[at + 3] == tag[3]
        && bytes[at + 4] == tag[4] && bytes[at + 5] == tag[5]);
    law_tag_ends(bytes, at + 1, at + 5, false);
    law_name_ends(bytes, at + 1, at + 5, at + 5);
    plain_text(bytes, at + 6, end, seq![]);
    assert(Seq::<u8>::empty() + bytes.subrange(at + 6, end) =~= bytes.subrange(at + 6, end));
}

/// A list is refused for a date past the last day behind text that has no markup in it,
/// and never where there is no markup at all.
pub proof fn law_late_dates_are_refused(bytes: Seq<u8>, from: int, at: int, end: int)
    requires
        0 <= from <= at,
        at + 6 <= end,
        end + 1 < bytes.len(),
        forall|i: int| from <= i < at ==> #[trigger] bytes[i] != 60,
        bytes.subrange(at, at + 6) == seq![60u8, 100, 97, 116, 101, 62],
        forall|i: int| at + 6 <= i < end ==> #[trigger] bytes[i] != 60 && bytes[i] != 38,
        bytes[end] == 60,
        bytes[end + 1] == 47,
    ensures
        fits_from(bytes, from) <==> !past_last_day(bytes.subrange(at + 6, end)) && fits_from(
            bytes,
            at + 6,
        ),
    decreases at - from,
{
    if from < at {
        law_late_dates_are_refused(bytes, from + 1, at, end);
    } else {
        law_date_elements(bytes, at, end);
        let tag = bytes.subrange(at, at + 6);
        assert(tag[0] == 60 && tag[1] == 100 && tag[2] == 97 && tag[3] == 116 && tag[4] == 101
            && tag[5] == 62);
        assert(bytes[at] == tag[0] && bytes[at + 1] == tag[1] && bytes[at + 2] == tag[2]
            && bytes[at + 3] == tag[3] && bytes[at + 4] == tag[4] && bytes[at + 5] == tag[5]);
        law_tag_ends(bytes, at + 1, at + 5, false);
    }
}

/// Where there is no markup, every date fits.
pub proof fn law_no_markup_fits(bytes: Seq<u8>, from: int)
    requires
        0 <= from,
        forall|i: int| from <= i < bytes.len() ==> #[trigger] bytes[i] != 60,
    ensures
        fits_from(bytes, from),
    decreases bytes.len() - from,
{
    if from < bytes.len() {
        law_no_markup_fits(bytes, from + 1);
    }
}

/// A comment is passed over, whatever stands in it.
pub proof fn law_comments_are_passed(bytes: Seq<u8>, at: int, end: int)
    requires
        0 <= at,
        at + 4 <= end,
        end + 3 <= bytes.len(),
        bytes.subrange(at, at + 4) == seq![60u8, 33, 45, 45],
        bytes.subrange(end, end + 3) == seq![45u8, 45, 62],
        forall|i: int| at + 4 <= i < end ==> !#[trigger] Mark::Comment.stands(bytes, i),
    ensures
        fits_from(bytes, at) == fits_from(bytes, end + 3),
{
    let open = bytes.subrange(at, at + 4);
    assert(open[0] == 60 && open[1] == 33 && open[2] == 45 && open[3] == 45);
    assert(bytes[at] == open[0] && bytes[at + 1] == open[1] && bytes[at + 2] == open[2]
        && bytes[at + 3] == open[3]);
    law_marks(bytes, end);
    law_first_mark(bytes, at + 4, Mark::Comment, end);
}

/// A list is binary just where it starts with `bplist00`, and then every date in it fits;
/// it starts as text where something other than a blank stands before markup and
/// references.
pub proof fn law_kinds_of_lists(bytes: Seq<u8>, k: int)
    ensures
        is_binary(bytes) <==> bytes.len() >= 8 && bytes[0] == 98 && bytes[1] == 112 && bytes[2]
            == 108 && bytes[3] == 105 && bytes[4] == 115 && bytes[5] == 116 && bytes[6] == 48
            && bytes[7] == 48,
        is_binary(bytes) ==> dates_fit(bytes),
        !is_binary(bytes) && !starts_as_text(bytes, 0) ==> dates_fit(bytes) == fits_from(bytes, 0),
        0 <= k < bytes.len() && 32 < bytes[k] < 127 && bytes[k] != 60 && bytes[k] != 38 && (forall|
            i: int,
        |
            0 <= i < k ==> #[trigger] bytes[i] != 60 && bytes[i] != 38) ==> starts_as_text(
            bytes,
            0,
        ),
        0 <= k < bytes.len() && (bytes[k] == 60 || bytes[k] == 38) && (forall|i: int|
            0 <= i < k ==> !(32 < #[trigger] bytes[i] < 127)) ==> !starts_as_text(bytes, 0),
{
    let magic = seq![98u8, 112, 108, 105, 115, 116, 48, 48];
    if bytes.len() >= 8 {
        let t = bytes.take(8);
        assert(forall|i: int| 0 <= i < 8 ==> #[trigger] t[i] == bytes[i]);
        if t == magic {
            assert(t[0] == 98 && t[1] == 112 && t[2] == 108 && t[3] == 105 && t[4] == 115 && t[5]
                == 116 && t[6] == 48 && t[7] == 48);
        }
        if bytes[0] == 98 && bytes[1] == 112 && bytes[2] == 108 && bytes[3] == 105 && bytes[4]
            == 115 && bytes[5] == 116 && bytes[6] == 48 && bytes[7] == 48 {
            assert(t =~= magic);
        }
    }
    if 0 <= k < bytes.len() {
        text_before(bytes, 0, k);
    }
}

/// Whether there is text is told by what comes first.
proof fn text_before(bytes: Seq<u8>, at: int, k: int)
    requires
        0 <= at <= k < bytes.len(),
    ensures
        32 < bytes[k] < 127 && bytes[k] != 60 && bytes[k] != 38 && (forall|i: int|
            at <= i < k ==> #[trigger] bytes[i] != 60 && bytes[i] != 38) ==> starts_as_text(
            bytes,
            at,
        ),
        (bytes[k] == 60 || bytes[k] == 38) && (forall|i: int|
            at <= i < k ==> !(32 < #[trigger] bytes[i] < 127)) ==> !starts_as_text(bytes, at),
    decreases k - at,
{
    if at < k {
        text_before(bytes, at + 1, k);
    }
}

/// A section, `<![CDATA[` and on, is passed over up to its `]]>`; an instruction up to its
/// `?>`, whatever stands in them.
pub proof fn law_sections_and_instructions_are_passed(bytes: Seq<u8>, at: int, end: int)
    requires
        0 <= at,
    ensures
        at + 9 <= end && end + 3 <= bytes.len() && bytes.subrange(at, at + 9) == seq![
            60u8,
            33,
            91,
            67,
            68,
            65,
            84,
            65,
            91,
        ] && Mark::Section.stands(bytes, end) && (forall|i: int|
            at + 9 <= i < end ==> !#[trigger] Mark::Section.stands(bytes, i)) ==> fits_from(
            bytes,
            at,
        ) == fits_from(bytes, end + 3),
        at + 1 <= end && end + 2 <= bytes.len() && bytes[at] == 60 && bytes[at + 1] == 63
            && Mark::Instruction.stands(bytes, end) && (forall|i: int|
            at + 1 <= i < end ==> !#[trigger] Mark::Instruction.stands(bytes, i)) ==> fits_from(
            bytes,
            at,
        ) == fits_from(bytes, end + 2),
{
    if at + 9 <= end && end + 3 <= bytes.len() && Mark::Section.stands(bytes, end) && (forall|
        i: int,
    |
        at + 9 <= i < end ==> !#[trigger] Mark::Section.stands(bytes, i)) {
        let open = bytes.subrange(at, at + 9);
        assert(forall|i: int| 0 <= i < 9 ==> #[trigger] open[i] == bytes[at + i]);
        if open == seq![60u8, 33, 91, 67, 68, 65, 84, 65, 91] {
            assert(open[0] == 60 && open[1] == 33 && open[2] == 91 && open[3] == 67 && open[4]
                == 68 && open[5] == 65 && open[6] == 84 && open[7] == 65 && open[8] == 91);
            assert(bytes[at + 0] == 60 && bytes[at + 1] == 33);
            law_first_mark(bytes, at + 9, Mark::Section, end);
        }
    }
    if at + 1 <= end && end + 2 <= bytes.len() && Mark::Instruction.stands(bytes, end) && (forall|
        i: int,
    |
        at + 1 <= i < end ==> !#[trigger] Mark::Instruction.stands(bytes, i)) {
        law_first_mark(bytes, at + 1, Mark::Instruction, end);
    }
}

/// A document type is passed over where it has no declarations of its own; behind one
/// that has, every `<` counts as that of a tag.
pub proof fn law_document_types(bytes: Seq<u8>, at: int, end: int)
    requires
        0 <= at,
        at + 2 < end < bytes.len(),
        bytes[at] == 60,
        bytes[at + 1] == 33,
        bytes[at + 2] == 68 || bytes[at + 2] == 100,
        forall|i: int|
            at + 2 <= i < end ==> #[trigger] bytes[i] != 62 && bytes[i] != 34 && bytes[i] != 39
                && bytes[i] != 91,
    ensures
        bytes[end] == 62 ==> fits_from(bytes, at) == fits_from(bytes, end + 1),
        bytes[end] == 91 ==> (fits_from(bytes, at) <==> forall|k: int|
            at + 1 <= k < bytes.len() && #[trigger] may_open(bytes, k) ==> !opens_past(bytes, k)),
{
    if bytes[end] == 62 || bytes[end] == 91 {
        law_tag_ends(bytes, at + 2, end, true);
    }
}

/// A number in sixteen may use letters, of either case; one that is of no ASCII character,
/// or of none at all, stands for what no date holds.
pub proof fn law_numbered_references(a: int, b: int, c: int)
    requires
        0 <= a < 8,
        0 <= b < 6,
        0 <= c < 10,
    ensures
        referred(seq![35u8, 120, (48 + a) as u8, (97 + b) as u8], 0, 4) == Some(
            (16 * a + 10 + b) as u8,
        ),
        referred(seq![35u8, 120, (48 + a) as u8, (65 + b) as u8], 0, 4) == Some(
            (16 * a + 10 + b) as u8,
        ),
        referred(seq![35u8, (50 + a) as u8, (48 + c) as u8, (48 + c) as u8], 0, 4) == Some(255u8),
        referred(seq![35u8, 48, 48], 0, 3) == Some(255u8),
        referred(seq![35u8, (97 + b) as u8], 0, 2) == Some(255u8),
{
    reveal_with_fuel(ascii_code, 5);
}

/// Only a time that there is lies past the last day, with an offset that there is.
pub proof fn law_only_times_lie_past(text: Seq<u8>)
    requires
        past_last_day(text),
    ensures
        two_digits(text, 11) < 24,
        two_digits(text, 14) < 60,
        two_digits(text, 17) < 60,
        two_digits(text, text.len() - 5) < 24,
        two_digits(text, text.len() - 2) < 60,
        text.len() > 25 ==> text.len() > 26 && text[19] == 46 && forall|k: int|
            20 <= k < text.len() - 6 ==> 48 <= #[trigger] text[k] <= 57,
{
}

/// Within an element, a comment leaves the text as it is; another tag that opens, or an
/// end that never comes, leaves no date.
pub proof fn law_within_elements(bytes: Seq<u8>, at: int, end: int, text: Seq<u8>)
    requires
        0 <= at,
    ensures
        at + 4 <= end && end + 3 <= bytes.len() && bytes.subrange(at, at + 4) == seq![
            60u8,
            33,
            45,
            45,
        ] && Mark::Comment.stands(bytes, end) && (forall|i: int|
            at + 4 <= i < end ==> !#[trigger] Mark::Comment.stands(bytes, i)) ==> closes_past(
            bytes,
            at,
            text,
        ) == closes_past(bytes, end + 3, text),
        at + 1 < bytes.len() && bytes[at] == 60 && bytes[at + 1] != 47 && bytes[at + 1] != 33
            && bytes[at + 1] != 63 ==> !closes_past(bytes, at, text),
        at + 1 >= bytes.len() && (at < bytes.len() ==> bytes[at] == 60) ==> !closes_past(
            bytes,
            at,
            text,
        ),
{
    if at + 4 <= end && end + 3 <= bytes.len() && Mark::Comment.stands(bytes, end) && (forall|
        i: int,
    |
        at + 4 <= i < end ==> !#[trigger] Mark::Comment.stands(bytes, i)) {
        let open = bytes.subrange(at, at + 4);
        assert(forall|i: int| 0 <= i < 4 ==> #[trigger] open[i] == bytes[at + i]);
        if open == seq![60u8, 33, 45, 45] {
            assert(open[0] == 60 && open[1] == 33 && open[2] == 45 && open[3] == 45);
            assert(bytes[at + 0] == 60 && bytes[at + 1] == 33 && bytes[at + 2] == 45 && bytes[at
                + 3] == 45);
            law_first_mark(bytes, at + 4, Mark::Comment, end);
        }
    }
}

/// A reference within an element adds the byte that it stands for, or nothing where it
/// stands for none; one that is not ended leaves no date.
pub proof fn law_references_within_elements(bytes: Seq<u8>, at: int, end: int, text: Seq<u8>)
    requires
        0 <= at < end <= bytes.len(),
        bytes[at] == 38,
        forall|i: int|
            at < i < end ==> #[trigger] bytes[i] != 59 && bytes[i] != 38 && bytes[i] != 60,
    ensures
        end < bytes.len() && bytes[end] == 59 ==> (match referred(bytes, at + 1, end) {
            Some(b) => closes_past(bytes, at, text) == closes_past(bytes, end + 1, text.push(b)),
            None => closes_past(bytes, at, text) == closes_past(bytes, end + 1, text),
        }),
        end == bytes.len() || bytes[end] == 38 || bytes[end] == 60 ==> !closes_past(
            bytes,
            at,
            text,
        ),
{
    if end == bytes.len() || bytes[end] == 59 || bytes[end] == 38 || bytes[end] == 60 {
        law_reference_end(bytes, at + 1, end);
    }
}

/// Dates fit in a binary list, in one that starts as text, and in one whose markup holds
/// none that do not; in no other.
pub proof fn law_dates_fit(bytes: Seq<u8>)
    ensures
        is_binary(bytes) ==> dates_fit(bytes),
        starts_as_text(bytes, 0) ==> dates_fit(bytes),
        fits_from(bytes, 0) ==> dates_fit(bytes),
        !is_binary(bytes) && !starts_as_text(bytes, 0) && !fits_from(bytes, 0) ==> !dates_fit(
            bytes,
        ),
{
}

} // verus!
