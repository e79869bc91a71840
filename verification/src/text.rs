//! Text as sequences of characters: the reading and writing of the plain
//! formats that the tools around the library speak.
use vstd::prelude::*;
use vstd::slice::slice_subrange;

verus! {

/// `String::push` appends one character to the end of the text.
pub assume_specification[ String::push ](s: &mut String, c: char)
    ensures
        final(s)@ == old(s)@.push(c),
;

/// The characters of each of several texts.
pub open spec fn texts(v: Seq<String>) -> Seq<Seq<char>> {
    v.map_values(|s: String| s@)
}

/// Pushing a text pushes its characters.
pub broadcast proof fn texts_push(v: Seq<String>, s: String)
    ensures
        #[trigger] texts(v.push(s)) == texts(v).push(s@),
{
    assert(texts(v.push(s)) =~= texts(v).push(s@));
}

/// The characters of `s`, in order.
pub fn chars_of(s: &str) -> (out: Vec<char>)
    ensures
        out@ == s@,
{
    let mut out: Vec<char> = Vec::new();
    for c in it: s.chars()
        invariant
            out@ == it.seq().take(it.index() as int),
            it.seq() == s@,
    {
        out.push(c);
    }
    out
}

/// The text made of `chars`.
pub fn string_of(chars: &[char]) -> (out: String)
    ensures
        out@ == chars@,
{
    let mut out = String::new();
    let mut i: usize = 0;
    while i < chars.len()
        invariant
            i <= chars@.len(),
            out@ == chars@.take(i as int),
        decreases chars@.len() - i,
    {
        out.push(chars[i]);
        i = i + 1;
        assert(chars@.take(i as int) =~= chars@.take(i - 1).push(chars@[i - 1]));
    }
    assert(chars@.take(i as int) =~= chars@);
    out
}

/// The part of `chars` from `from` up to `to`, as a text.
pub fn part(chars: &Vec<char>, from: usize, to: usize) -> (out: String)
    requires
        from <= to <= chars@.len(),
    ensures
        out@ == chars@.subrange(from as int, to as int),
{
    string_of(slice_subrange(chars.as_slice(), from, to))
}

/// Whether `a` and `b` are the same text.
pub fn same_text(a: &str, b: &str) -> (same: bool)
    ensures
        same == (a@ == b@),
{
    a.to_owned() == b.to_owned()
}

// --- numbers -------------------------------------------------------------

/// The decimal digit for `d`.
pub open spec fn digit(d: nat) -> char {
    (48 + d) as char
}

/// The decimal numeral of `n`, without leading zeros.
pub open spec fn decimal(n: nat) -> Seq<char>
    decreases n,
{
    if n < 10 {
        seq![digit(n)]
    } else {
        decimal(n / 10).push(digit(n % 10))
    }
}

/// The decimal numeral of an integer, with `-` in front of a negative one.
pub open spec fn signed_decimal(n: int) -> Seq<char> {
    if n < 0 {
        seq!['-'] + decimal((-n) as nat)
    } else {
        decimal(n as nat)
    }
}

/// The decimal digit for `d`.
pub fn digit_char(d: u8) -> (c: char)
    requires
        d < 10,
    ensures
        c == digit(d as nat),
{
    (48 + d) as char
}

/// The decimal numeral of `n`.
pub fn decimal_text(n: u64) -> (out: String)
    ensures
        out@ == decimal(n as nat),
    decreases n,
{
    if n < 10 {
        let mut out = String::new();
        out.push(digit_char(n as u8));
        assert(out@ =~= decimal(n as nat));
        out
    } else {
        let mut out = decimal_text(n / 10);
        out.push(digit_char((n % 10) as u8));
        out
    }
}

/// The decimal numeral of `n`, with its sign when negative.
pub fn signed_decimal_text(n: i64) -> (out: String)
    ensures
        out@ == signed_decimal(n as int),
{
    if n < 0 {
        let mut out = String::new();
        out.push('-');
        let magnitude: u64 = if n == i64::MIN {
            0x8000_0000_0000_0000
        } else {
            (-n) as u64
        };
        out.append(decimal_text(magnitude).as_str());
        assert(out@ =~= signed_decimal(n as int));
        out
    } else {
        decimal_text(n as u64)
    }
}

// --- white space -----------------------------------------------------------

/// Whether `c` is white space as Unicode's `White_Space` property has it.
pub open spec fn is_white(c: char) -> bool {
    let v = c as u32;
    ||| 0x9 <= v <= 0xd
    ||| v == 0x20
    ||| v == 0x85
    ||| v == 0xa0
    ||| v == 0x1680
    ||| 0x2000 <= v <= 0x200a
    ||| v == 0x2028
    ||| v == 0x2029
    ||| v == 0x202f
    ||| v == 0x205f
    ||| v == 0x3000
}

/// Whether `c` is white space.
pub fn white(c: char) -> (w: bool)
    ensures
        w == is_white(c),
{
    let v: u32 = c as u32;
    (0x9 <= v && v <= 0xd) || v == 0x20 || v == 0x85 || v == 0xa0 || v == 0x1680 || (0x2000 <= v
        && v <= 0x200a) || v == 0x2028 || v == 0x2029 || v == 0x202f || v == 0x205f || v == 0x3000
}

/// `s` without the white space it starts with.
pub open spec fn trim_start(s: Seq<char>) -> Seq<char>
    decreases s.len(),
{
    if s.len() > 0 && is_white(s[0]) {
        trim_start(s.skip(1))
    } else {
        s
    }
}

/// `s` without the white space it ends with.
pub open spec fn trim_end(s: Seq<char>) -> Seq<char>
    decreases s.len(),
{
    if s.len() > 0 && is_white(s.last()) {
        trim_end(s.drop_last())
    } else {
        s
    }
}

/// `s` without the white space at either end.
pub open spec fn trim(s: Seq<char>) -> Seq<char> {
    trim_end(trim_start(s))
}

/// `s` without the white space at either end.
pub fn trimmed(s: &str) -> (out: String)
    ensures
        out@ == trim(s@),
{
    let v = chars_of(s);
    let mut i: usize = 0;
    assert(v@.skip(0) =~= v@);
    while i < v.len() && white(v[i])
        invariant
            i <= v@.len(),
            trim_start(v@) == trim_start(v@.skip(i as int)),
        decreases v@.len() - i,
    {
        assert(v@.skip(i as int).skip(1) =~= v@.skip(i + 1));
        i = i + 1;
    }
    assert(trim_start(v@) == v@.skip(i as int));
    let mut j: usize = v.len();
    assert(v@.subrange(i as int, j as int) =~= v@.skip(i as int));
    while i < j && white(v[j - 1])
        invariant
            i <= j <= v@.len(),
            trim_end(v@.skip(i as int)) == trim_end(v@.subrange(i as int, j as int)),
        decreases j,
    {
        assert(v@.subrange(i as int, j as int).drop_last() =~= v@.subrange(i as int, j - 1));
        j = j - 1;
    }
    part(&v, i, j)
}

/// Texts put together, with `sep` between.
pub open spec fn joined_by(ls: Seq<Seq<char>>, sep: Seq<char>) -> Seq<char>
    decreases ls.len(),
{
    if ls.len() == 0 {
        seq![]
    } else if ls.len() == 1 {
        ls[0]
    } else {
        joined_by(ls.drop_last(), sep) + sep + ls.last()
    }
}

/// Texts put together, with `sep` between.
pub fn join_by(ls: &Vec<String>, sep: &str) -> (out: String)
    ensures
        out@ == joined_by(texts(ls@), sep@),
{
    let mut out = String::new();
    let ghost all = texts(ls@);
    let mut i: usize = 0;
    assert(out@ =~= joined_by(all.take(0), sep@));
    while i < ls.len()
        invariant
            i <= ls@.len(),
            all == texts(ls@),
            out@ == joined_by(all.take(i as int), sep@),
        decreases ls@.len() - i,
    {
        proof {
            assert(all.take(i + 1).drop_last() =~= all.take(i as int));
            assert(all.take(i + 1).last() == ls@[i as int]@);
        }
        if i > 0 {
            out.append(sep);
        }
        out.append(ls[i].as_str());
        if i == 0 {
            assert(out@ =~= ls@[0]@);
        }
        i = i + 1;
    }
    assert(all.take(i as int) =~= all);
    out
}

// --- finding -----------------------------------------------------------------

/// Whether `p` stands in `s` at `i`.
pub open spec fn occurs_at(s: Seq<char>, p: Seq<char>, i: int) -> bool {
    0 <= i && i + p.len() <= s.len() && s.subrange(i, i + p.len()) == p
}

/// Whether `s` starts with `p`.
pub open spec fn starts_with(s: Seq<char>, p: Seq<char>) -> bool {
    occurs_at(s, p, 0)
}

/// Whether `s` ends with `p`.
pub open spec fn ends_with(s: Seq<char>, p: Seq<char>) -> bool {
    occurs_at(s, p, s.len() - p.len())
}

/// The first place at which `p` stands in `s`.
pub open spec fn find(s: Seq<char>, p: Seq<char>) -> Option<int>
    decreases s.len(),
{
    if s.len() < p.len() {
        None
    } else if starts_with(s, p) {
        Some(0)
    } else if s.len() == 0 {
        None
    } else {
        match find(s.skip(1), p) {
            Some(i) => Some(i + 1),
            None => None,
        }
    }
}

/// Whether `p` stands anywhere in `s`.
pub open spec fn contains(s: Seq<char>, p: Seq<char>) -> bool {
    find(s, p) is Some
}

/// The first place found is one where `p` stands.
pub proof fn found_occurs(s: Seq<char>, p: Seq<char>)
    ensures
        find(s, p) matches Some(i) ==> occurs_at(s, p, i),
    decreases s.len(),
{
    if s.len() >= p.len() && !starts_with(s, p) && s.len() > 0 {
        found_occurs(s.skip(1), p);
        if let Some(i) = find(s.skip(1), p) {
            assert(s.subrange(i + 1, i + 1 + p.len()) =~= s.skip(1).subrange(i, i + p.len()));
        }
    }
}

/// `p` stands somewhere in `s` just when it is contained in it.
pub proof fn contains_is_occurring(s: Seq<char>, p: Seq<char>)
    ensures
        contains(s, p) <==> exists|i: int| #[trigger] occurs_at(s, p, i),
    decreases s.len(),
{
    found_occurs(s, p);
    if exists|i: int| #[trigger] occurs_at(s, p, i) {
        let i = choose|i: int| #[trigger] occurs_at(s, p, i);
        if !starts_with(s, p) {
            assert(s.skip(1).subrange(i - 1, i - 1 + p.len()) =~= s.subrange(i, i + p.len()));
            assert(occurs_at(s.skip(1), p, i - 1));
            contains_is_occurring(s.skip(1), p);
        }
    }
}

/// The part of `s` in front of the first `p` and the part behind it.
pub open spec fn split_once(s: Seq<char>, p: Seq<char>) -> Option<(Seq<char>, Seq<char>)> {
    match find(s, p) {
        Some(i) => Some((s.take(i), s.skip(i + p.len()))),
        None => None,
    }
}

/// `s` without the `p` it starts with.
pub open spec fn strip_prefix(s: Seq<char>, p: Seq<char>) -> Option<Seq<char>> {
    if starts_with(s, p) {
        Some(s.skip(p.len() as int))
    } else {
        None
    }
}

/// `s` without the `p` it ends with.
pub open spec fn strip_suffix(s: Seq<char>, p: Seq<char>) -> Option<Seq<char>> {
    if ends_with(s, p) {
        Some(s.take(s.len() - p.len()))
    } else {
        None
    }
}

/// The last place of `c` in `s`.
pub open spec fn rfind(s: Seq<char>, c: char) -> Option<int>
    decreases s.len(),
{
    if s.len() == 0 {
        None
    } else if s.last() == c {
        Some(s.len() - 1)
    } else {
        rfind(s.drop_last(), c)
    }
}

/// Whether `p` stands in `v` at `i`.
fn stands_at(v: &[char], p: &[char], i: usize) -> (r: bool)
    ensures
        r == occurs_at(v@, p@, i as int),
{
    let n: usize = v.len();
    if n < p.len() || n - p.len() < i {
        return false;
    }
    let mut k: usize = 0;
    while k < p.len()
        invariant
            k <= p@.len(),
            i + p@.len() <= v@.len(),
            n == v@.len(),
            forall|j: int| 0 <= j < k ==> v@[i + j] == p@[j],
        decreases p@.len() - k,
    {
        if v[i + k] != p[k] {
            assert(v@.subrange(i as int, i + p@.len())[k as int] != p@[k as int]);
            return false;
        }
        k = k + 1;
    }
    assert(v@.subrange(i as int, i + p@.len()) =~= p@);
    true
}

/// The first place at which `p` stands in `v`.
pub fn find_in(v: &[char], p: &[char]) -> (r: Option<usize>)
    ensures
        match r {
            Some(i) => find(v@, p@) == Some(i as int) && i + p@.len() <= v@.len(),
            None => find(v@, p@) is None,
        },
{
    let mut i: usize = 0;
    assert(v@.skip(0) =~= v@);
    loop
        invariant
            i <= v@.len(),
            find(v@, p@) == (match find(v@.skip(i as int), p@) {
                Some(k) => Some(i + k),
                None => None,
            }),
        decreases v@.len() - i,
    {
        let ghost rest = v@.skip(i as int);
        if v.len() - i < p.len() {
            return None;
        }
        assert(rest.subrange(0, p@.len() as int) =~= v@.subrange(i as int, i + p@.len()));
        if stands_at(v, p, i) {
            return Some(i);
        }
        if i == v.len() {
            return None;
        }
        assert(rest.skip(1) =~= v@.skip(i + 1));
        i = i + 1;
    }
}

/// Whether `p` stands anywhere in `s`.
pub fn mentions(s: &str, p: &str) -> (r: bool)
    ensures
        r == contains(s@, p@),
{
    find_in(chars_of(s).as_slice(), chars_of(p).as_slice()).is_some()
}

/// Whether `s` starts with `p`.
pub fn begins(s: &str, p: &str) -> (r: bool)
    ensures
        r == starts_with(s@, p@),
{
    stands_at(chars_of(s).as_slice(), chars_of(p).as_slice(), 0)
}

/// Whether `s` ends with `p`.
pub fn ends(s: &str, p: &str) -> (r: bool)
    ensures
        r == ends_with(s@, p@),
{
    let v = chars_of(s);
    let q = chars_of(p);
    v.len() >= q.len() && stands_at(v.as_slice(), q.as_slice(), v.len() - q.len())
}

/// The part of `s` in front of the first `p` and the part behind it.
pub fn split_at_first(s: &str, p: &str) -> (r: Option<(String, String)>)
    ensures
        match r {
            Some((a, b)) => split_once(s@, p@) == Some((a@, b@)),
            None => split_once(s@, p@) is None,
        },
{
    let v = chars_of(s);
    let q = chars_of(p);
    let n: usize = v.len();
    match find_in(v.as_slice(), q.as_slice()) {
        Some(i) => {
            assert(v@.subrange(0, i as int) =~= v@.take(i as int));
            assert(v@.subrange(i + q@.len(), v@.len() as int) =~= v@.skip(i + q@.len()));
            Some((part(&v, 0, i), part(&v, i + q.len(), n)))
        },
        None => None,
    }
}

/// `s` without the `p` it starts with.
pub fn without_prefix(s: &str, p: &str) -> (r: Option<String>)
    ensures
        match r {
            Some(a) => strip_prefix(s@, p@) == Some(a@),
            None => strip_prefix(s@, p@) is None,
        },
{
    let v = chars_of(s);
    let q = chars_of(p);
    if stands_at(v.as_slice(), q.as_slice(), 0) {
        assert(v@.subrange(q@.len() as int, v@.len() as int) =~= v@.skip(q@.len() as int));
        Some(part(&v, q.len(), v.len()))
    } else {
        None
    }
}

/// `s` without the `p` it ends with.
pub fn without_suffix(s: &str, p: &str) -> (r: Option<String>)
    ensures
        match r {
            Some(a) => strip_suffix(s@, p@) == Some(a@),
            None => strip_suffix(s@, p@) is None,
        },
{
    let v = chars_of(s);
    let q = chars_of(p);
    if v.len() >= q.len() && stands_at(v.as_slice(), q.as_slice(), v.len() - q.len()) {
        assert(v@.subrange(0, v@.len() - q@.len()) =~= v@.take(v@.len() - q@.len()));
        Some(part(&v, 0, v.len() - q.len()))
    } else {
        None
    }
}

/// The last place of `c` in `v`.
pub fn rfind_in(v: &[char], c: char) -> (r: Option<usize>)
    ensures
        match r {
            Some(i) => rfind(v@, c) == Some(i as int) && i < v@.len(),
            None => rfind(v@, c) is None,
        },
{
    let mut n: usize = v.len();
    assert(v@.take(n as int) =~= v@);
    while n > 0
        invariant
            n <= v@.len(),
            rfind(v@, c) == rfind(v@.take(n as int), c),
        decreases n,
    {
        assert(v@.take(n as int).last() == v@[n - 1]);
        if v[n - 1] == c {
            return Some(n - 1);
        }
        assert(v@.take(n as int).drop_last() =~= v@.take(n - 1));
        n = n - 1;
    }
    None
}

// --- lines and words -----------------------------------------------------------

/// The place of the first `c` in `s`, or the length of `s`.
pub open spec fn index_of_char(s: Seq<char>, c: char) -> nat
    decreases s.len(),
{
    if s.len() == 0 || s[0] == c {
        0
    } else {
        1 + index_of_char(s.skip(1), c)
    }
}

/// The place of a character is within the text or at its end.
pub proof fn index_of_char_in_range(s: Seq<char>, c: char)
    ensures
        index_of_char(s, c) <= s.len(),
    decreases s.len(),
{
    if s.len() != 0 && s[0] != c {
        index_of_char_in_range(s.skip(1), c);
    }
}

/// A line without the carriage return it ends with.
pub open spec fn without_cr(s: Seq<char>) -> Seq<char> {
    if s.len() > 0 && s.last() == '\r' {
        s.drop_last()
    } else {
        s
    }
}

/// The lines of `s`: each ends at a line feed, with a carriage return in
/// front of it or not, and the last one may lack it.
pub open spec fn lines(s: Seq<char>) -> Seq<Seq<char>>
    decreases s.len(),
{
    if s.len() == 0 {
        seq![]
    } else {
        let n = index_of_char(s, '\n') as int;
        if n >= s.len() {
            seq![s]
        } else {
            seq![without_cr(s.take(n))] + lines(s.skip(n + 1))
        }
    }
}

/// The place of the first `c` in `v` at or behind `from`, or the length of `v`.
fn index_from(v: &[char], c: char, from: usize) -> (at: usize)
    requires
        from <= v@.len(),
    ensures
        from <= at <= v@.len(),
        at == from + index_of_char(v@.skip(from as int), c),
{
    let mut i: usize = from;
    while i < v.len()
        invariant
            from <= i <= v@.len(),
            from + index_of_char(v@.skip(from as int), c) == i + index_of_char(
                v@.skip(i as int),
                c,
            ),
        decreases v@.len() - i,
    {
        if v[i] == c {
            return i;
        }
        assert(v@.skip(i as int).skip(1) =~= v@.skip(i + 1));
        i = i + 1;
    }
    i
}

/// The lines of `s`.
pub fn lines_of(s: &str) -> (out: Vec<String>)
    ensures
        texts(out@) == lines(s@),
{
    broadcast use texts_push;

    let v = chars_of(s);
    let mut out: Vec<String> = Vec::new();
    let mut start: usize = 0;
    assert(v@.skip(0) =~= v@);
    assert(texts(out@) + lines(v@) =~= lines(v@));
    while start < v.len()
        invariant
            v@ == s@,
            start <= v@.len(),
            lines(v@) == texts(out@) + lines(v@.skip(start as int)),
        decreases v@.len() - start,
    {
        let ghost rest = v@.skip(start as int);
        let ghost before = texts(out@);
        let end = index_from(v.as_slice(), '\n', start);
        if end == v.len() {
            let line = part(&v, start, end);
            assert(line@ =~= rest);
            out.push(line);
            assert(lines(rest) =~= seq![rest]);
            assert(texts(out@) =~= before + seq![rest]);
            return out;
        }
        let mut stop: usize = end;
        if start < end && v[end - 1] == '\r' {
            stop = end - 1;
        }
        let line = part(&v, start, stop);
        proof {
            assert(rest.take(end - start) =~= v@.subrange(start as int, end as int));
            if start < end {
                assert(rest.take(end - start).last() == v@[end - 1]);
            }
            assert(line@ =~= without_cr(rest.take(end - start)));
            assert(rest.skip(end - start + 1) =~= v@.skip(end + 1));
            assert(before + (seq![line@] + lines(v@.skip(end + 1))) =~= before.push(line@) + lines(
                v@.skip(end + 1),
            ));
        }
        out.push(line);
        start = end + 1;
    }
    assert(texts(out@) + Seq::<Seq<char>>::empty() =~= texts(out@));
    out
}

/// The pieces of `s` between the `c`s in it: one more than there are `c`s.
pub open spec fn pieces(s: Seq<char>, c: char) -> Seq<Seq<char>>
    decreases s.len(),
{
    let n = index_of_char(s, c) as int;
    if n >= s.len() {
        seq![s]
    } else {
        seq![s.take(n)] + pieces(s.skip(n + 1), c)
    }
}

/// The pieces of `s` between the `c`s in it.
pub fn pieces_of(s: &str, c: char) -> (out: Vec<String>)
    ensures
        texts(out@) == pieces(s@, c),
{
    broadcast use texts_push;

    let v = chars_of(s);
    let mut out: Vec<String> = Vec::new();
    let mut start: usize = 0;
    assert(v@.skip(0) =~= v@);
    assert(texts(out@) + pieces(v@, c) =~= pieces(v@, c));
    loop
        invariant
            v@ == s@,
            start <= v@.len(),
            pieces(v@, c) == texts(out@) + pieces(v@.skip(start as int), c),
        decreases v@.len() - start,
    {
        let ghost rest = v@.skip(start as int);
        let ghost before = texts(out@);
        let end = index_from(v.as_slice(), c, start);
        let piece = part(&v, start, end);
        if end == v.len() {
            assert(piece@ =~= rest);
            out.push(piece);
            assert(texts(out@) =~= before + seq![rest]);
            return out;
        }
        proof {
            assert(piece@ =~= rest.take(end - start));
            assert(rest.skip(end - start + 1) =~= v@.skip(end + 1));
            assert(before + (seq![piece@] + pieces(v@.skip(end + 1), c)) =~= before.push(piece@)
                + pieces(v@.skip(end + 1), c));
        }
        out.push(piece);
        start = end + 1;
    }
}

/// How many characters `s` starts with that are not white space.
pub open spec fn word_length(s: Seq<char>) -> nat
    decreases s.len(),
{
    if s.len() == 0 || is_white(s[0]) {
        0
    } else {
        1 + word_length(s.skip(1))
    }
}

/// A word is no longer than the text it starts.
pub proof fn word_length_in_range(s: Seq<char>)
    ensures
        word_length(s) <= s.len(),
    decreases s.len(),
{
    if s.len() != 0 && !is_white(s[0]) {
        word_length_in_range(s.skip(1));
    }
}

/// Trimming the front of a text leaves a part of it.
pub proof fn trim_start_shortens(s: Seq<char>)
    ensures
        trim_start(s).len() <= s.len(),
        trim_start(s).len() > 0 ==> !is_white(trim_start(s)[0]),
    decreases s.len(),
{
    if s.len() > 0 && is_white(s[0]) {
        trim_start_shortens(s.skip(1));
    }
}

/// The words of `s`: its runs of characters that are not white space.
pub open spec fn words(s: Seq<char>) -> Seq<Seq<char>>
    decreases s.len(),
{
    let t = trim_start(s);
    if t.len() == 0 {
        seq![]
    } else {
        let n = word_length(t) as int;
        proof {
            trim_start_shortens(s);
            word_length_in_range(t);
        }
        seq![t.take(n)] + words(t.skip(n))
    }
}

/// The words of `s`.
pub fn words_of(s: &str) -> (out: Vec<String>)
    ensures
        texts(out@) == words(s@),
{
    broadcast use texts_push;

    let v = chars_of(s);
    let mut out: Vec<String> = Vec::new();
    let mut i: usize = 0;
    assert(v@.skip(0) =~= v@);
    assert(texts(out@) + words(v@) =~= words(v@));
    loop
        invariant
            v@ == s@,
            i <= v@.len(),
            words(v@) == texts(out@) + words(v@.skip(i as int)),
        decreases v@.len() - i,
    {
        let ghost rest = v@.skip(i as int);
        let ghost entry = i;
        while i < v.len() && white(v[i])
            invariant
                entry <= i <= v@.len(),
                trim_start(rest) == trim_start(v@.skip(i as int)),
            decreases v@.len() - i,
        {
            assert(v@.skip(i as int).skip(1) =~= v@.skip(i + 1));
            i = i + 1;
        }
        let start: usize = i;
        let ghost t = v@.skip(start as int);
        assert(trim_start(rest) == t);
        if i == v.len() {
            assert(t =~= seq![]);
            assert(texts(out@) + Seq::<Seq<char>>::empty() =~= texts(out@));
            return out;
        }
        while i < v.len() && !white(v[i])
            invariant
                start <= i <= v@.len(),
                start + word_length(v@.skip(start as int)) == i + word_length(v@.skip(i as int)),
            decreases v@.len() - i,
        {
            assert(v@.skip(i as int).skip(1) =~= v@.skip(i + 1));
            i = i + 1;
        }
        let word = part(&v, start, i);
        proof {
            let n = i - start;
            assert(word_length(t) == n);
            assert(!is_white(t[0]));
            assert(n > 0);
            assert(t.take(n) =~= word@);
            assert(t.skip(n) =~= v@.skip(i as int));
            assert(texts(out@) + (seq![word@] + words(v@.skip(i as int))) =~= texts(out@).push(
                word@,
            ) + words(v@.skip(i as int)));
        }
        out.push(word);
    }
}

// --- reading numbers -------------------------------------------------------------

/// Whether `c` is one of `0` to `9`.
pub open spec fn is_digit(c: char) -> bool {
    '0' <= c <= '9'
}

/// Whether every character of `s` is a digit.
pub open spec fn all_digits(s: Seq<char>) -> bool {
    forall|i: int| 0 <= i < s.len() ==> is_digit(#[trigger] s[i])
}

/// The number that digits spell.
pub open spec fn digits_value(s: Seq<char>) -> nat
    decreases s.len(),
{
    if s.len() == 0 {
        0
    } else {
        digits_value(s.drop_last()) * 10 + ((s.last() as nat - 48) as nat)
    }
}

/// The digits of an unsigned numeral: a plus sign may stand in front.
pub open spec fn unsigned_digits(s: Seq<char>) -> Seq<char> {
    if s.len() > 0 && s[0] == '+' {
        s.skip(1)
    } else {
        s
    }
}

/// The number that `s` spells, where it spells one of at most `max`.
pub open spec fn unsigned(s: Seq<char>, max: nat) -> Option<nat> {
    let t = unsigned_digits(s);
    if t.len() > 0 && all_digits(t) && digits_value(t) <= max {
        Some(digits_value(t))
    } else {
        None
    }
}

/// The number that `s` spells, where it spells one that fits.
pub fn parse_u64(s: &str) -> (r: Option<u64>)
    ensures
        match r {
            Some(n) => unsigned(s@, u64::MAX as nat) == Some(n as nat),
            None => unsigned(s@, u64::MAX as nat) is None,
        },
{
    let v = chars_of(s);
    let from: usize = if v.len() > 0 && v[0] == '+' {
        1
    } else {
        0
    };
    let ghost t = unsigned_digits(s@);
    assert(t =~= v@.skip(from as int));
    if from == v.len() {
        return None;
    }
    let mut i: usize = from;
    let mut n: u64 = 0;
    let mut over: bool = false;
    while i < v.len()
        invariant
            from <= i <= v@.len(),
            t == v@.skip(from as int),
            t == unsigned_digits(s@),
            all_digits(t.take(i - from)),
            over ==> digits_value(t.take(i - from)) > u64::MAX,
            !over ==> digits_value(t.take(i - from)) == n,
        decreases v@.len() - i,
    {
        let c = v[i];
        assert(t[i - from] == c);
        if !('0' <= c && c <= '9') {
            assert(!is_digit(t[i - from]));
            return None;
        }
        let d: u64 = (c as u32 - 48) as u64;
        proof {
            let now = t.take(i - from);
            let next = t.take(i + 1 - from);
            assert(next.drop_last() =~= now);
            assert(next.last() == c);
            assert(all_digits(next)) by {
                assert forall|k: int| 0 <= k < next.len() implies is_digit(#[trigger] next[k]) by {
                    if k < now.len() {
                        assert(is_digit(now[k]));
                    }
                }
            }
        }
        if !over {
            match n.checked_mul(10) {
                Some(m) => match m.checked_add(d) {
                    Some(k) => {
                        n = k;
                    },
                    None => {
                        over = true;
                    },
                },
                None => {
                    over = true;
                },
            }
        }
        i = i + 1;
    }
    assert(t.take(i - from) =~= t);
    if over {
        None
    } else {
        Some(n)
    }
}

/// The number that `s` spells, where it spells one that fits.
pub fn parse_u32(s: &str) -> (r: Option<u32>)
    ensures
        match r {
            Some(n) => unsigned(s@, u32::MAX as nat) == Some(n as nat),
            None => unsigned(s@, u32::MAX as nat) is None,
        },
{
    match parse_u64(s) {
        Some(n) => if n <= 0xffff_ffff {
            Some(n as u32)
        } else {
            None
        },
        None => None,
    }
}

// --- what holds of texts -------------------------------------------------------------------

/// A numeral has digits only, does not start with a zero unless it is that of
/// zero, and is read back as its number, with a plus sign in front or without.
pub proof fn law_numerals_read_back(n: nat, max: nat)
    ensures
        all_digits(decimal(n)),
        decimal(n).len() > 0,
        n > 0 ==> decimal(n)[0] != '0',
        n == 0 ==> decimal(n) == seq!['0'],
        digits_value(decimal(n)) == n,
        unsigned(decimal(n), max) == (if n <= max {
            Some(n)
        } else {
            None
        }),
        unsigned(seq!['+'] + decimal(n), max) == unsigned(decimal(n), max),
    decreases n,
{
    let d = decimal(n);
    if n < 10 {
        assert(d.drop_last() =~= seq![]);
        assert(digits_value(d.drop_last()) == 0);
    } else {
        law_numerals_read_back(n / 10, max);
        let head = decimal(n / 10);
        assert(d.drop_last() =~= head);
        assert(d.last() == digit(n % 10));
        assert forall|i: int| 0 <= i < d.len() implies is_digit(#[trigger] d[i]) by {
            if i < head.len() {
                assert(is_digit(head[i]));
            }
        }
        assert(d[0] == head[0]);
    }
    assert(is_digit(d[0]));
    assert((seq!['+'] + d).skip(1) =~= d);
}

/// What is not all digits, behind at most one plus sign, is no number.
pub proof fn law_only_digits_are_numbers(s: Seq<char>, max: nat, i: int)
    requires
        0 <= i < s.len(),
        !is_digit(s[i]),
        !(i == 0 && s[0] == '+'),
    ensures
        unsigned(s, max) is None,
{
    let t = unsigned_digits(s);
    if s[0] == '+' {
        assert(t[i - 1] == s[i]);
    }
}

/// A sign stands in front of the numerals of negative numbers, and of no other.
pub proof fn law_signs(n: int)
    ensures
        n >= 0 ==> signed_decimal(n) == decimal(n as nat),
        n < 0 ==> signed_decimal(n).len() > 1 && signed_decimal(n)[0] == '-'
            && signed_decimal(n).skip(1) == signed_decimal(-n),
{
    if n < 0 {
        law_numerals_read_back((-n) as nat, 0);
        assert(signed_decimal(n).skip(1) =~= decimal((-n) as nat));
    }
}

/// Among the characters of ASCII, the space and the five in front of the carriage
/// return, with it, are white space, and nothing that prints is.
pub proof fn law_white_space(c: char)
    ensures
        c == ' ' || c == '\t' || c == '\n' || c == '\r' ==> is_white(c),
        '!' <= c <= '~' ==> !is_white(c),
{
}

/// Trimming the front takes off white space only, and all of it.
proof fn lemma_trim_start(s: Seq<char>) -> (n: int)
    ensures
        0 <= n <= s.len(),
        trim_start(s) == s.skip(n),
        forall|i: int| 0 <= i < n ==> is_white(#[trigger] s[i]),
        n < s.len() ==> !is_white(s[n]),
    decreases s.len(),
{
    if s.len() > 0 && is_white(s[0]) {
        let n = lemma_trim_start(s.skip(1));
        assert(s.skip(1).skip(n) =~= s.skip(n + 1));
        assert forall|i: int| 0 <= i < n + 1 implies is_white(#[trigger] s[i]) by {
            if i > 0 {
                assert(is_white(s.skip(1)[i - 1]));
            }
        }
        n + 1
    } else {
        assert(s.skip(0) =~= s);
        0
    }
}

/// Trimming the end takes off white space only, and all of it.
proof fn lemma_trim_end(s: Seq<char>) -> (n: int)
    ensures
        0 <= n <= s.len(),
        trim_end(s) == s.take(n),
        forall|i: int| n <= i < s.len() ==> is_white(#[trigger] s[i]),
        n > 0 ==> !is_white(s[n - 1]),
    decreases s.len(),
{
    if s.len() > 0 && is_white(s.last()) {
        let n = lemma_trim_end(s.drop_last());
        assert(s.drop_last().take(n) =~= s.take(n));
        assert forall|i: int| n <= i < s.len() implies is_white(#[trigger] s[i]) by {
            if i < s.len() - 1 {
                assert(is_white(s.drop_last()[i]));
            }
        }
        n
    } else {
        assert(s.take(s.len() as int) =~= s);
        s.len() as int
    }
}

/// Trimming takes off the white space at either end, all of it and nothing else:
/// what is left is the part from `i` to `j`.
pub proof fn law_trim(s: Seq<char>) -> (ends: (int, int))
    ensures
        0 <= ends.0 <= ends.1 <= s.len(),
        trim(s) == s.subrange(ends.0, ends.1),
        forall|i: int| 0 <= i < ends.0 || ends.1 <= i < s.len() ==> is_white(#[trigger] s[i]),
        ends.0 < ends.1 ==> !is_white(s[ends.0]) && !is_white(s[ends.1 - 1]),
{
    let i = lemma_trim_start(s);
    let t = s.skip(i);
    let n = lemma_trim_end(t);
    assert(t.take(n) =~= s.subrange(i, i + n));
    assert forall|k: int| i + n <= k < s.len() implies is_white(#[trigger] s[k]) by {
        assert(is_white(t[k - i]));
    }
    if n > 0 {
        assert(t[n - 1] == s[i + n - 1]);
    }
    (i, i + n)
}

/// What is found is the first place, and nothing is found only where there is
/// none.
pub proof fn law_find_is_first(s: Seq<char>, p: Seq<char>)
    ensures
        match find(s, p) {
            Some(i) => occurs_at(s, p, i) && forall|j: int|
                0 <= j < i ==> !#[trigger] occurs_at(s, p, j),
            None => forall|j: int| !#[trigger] occurs_at(s, p, j),
        },
    decreases s.len(),
{
    found_occurs(s, p);
    contains_is_occurring(s, p);
    if s.len() >= p.len() && !starts_with(s, p) && s.len() > 0 {
        let rest = s.skip(1);
        law_find_is_first(rest, p);
        if let Some(i) = find(s, p) {
            assert forall|j: int| 0 <= j < i implies !#[trigger] occurs_at(s, p, j) by {
                if j > 0 && occurs_at(s, p, j) {
                    assert(rest.subrange(j - 1, j - 1 + p.len()) =~= s.subrange(j, j + p.len()));
                    assert(occurs_at(rest, p, j - 1));
                }
            }
        }
    }
}

/// A text is cut at the first place of what it is cut by: put together again, it
/// is the text, and the front holds no other such place.
pub proof fn law_split_once(s: Seq<char>, p: Seq<char>)
    ensures
        match split_once(s, p) {
            Some((a, b)) => a + p + b == s && forall|j: int|
                0 <= j < a.len() ==> !#[trigger] occurs_at(s, p, j),
            None => !contains(s, p),
        },
{
    law_find_is_first(s, p);
    if let Some(i) = find(s, p) {
        assert(s.take(i) + p + s.skip(i + p.len()) =~= s) by {
            assert(s.subrange(i, i + p.len()) == p);
            assert(s.take(i) + s.subrange(i, i + p.len()) + s.skip(i + p.len()) =~= s);
        }
    }
}

/// What is stripped stood where it was stripped from.
pub proof fn law_strip(s: Seq<char>, p: Seq<char>)
    ensures
        match strip_prefix(s, p) {
            Some(rest) => p + rest == s,
            None => forall|rest: Seq<char>| #[trigger] (p + rest) != s,
        },
        match strip_suffix(s, p) {
            Some(rest) => rest + p == s,
            None => forall|rest: Seq<char>| #[trigger] (rest + p) != s,
        },
{
    if starts_with(s, p) {
        assert(p + s.skip(p.len() as int) =~= s) by {
            assert(s.subrange(0, p.len() as int) + s.skip(p.len() as int) =~= s);
        }
    } else {
        assert forall|rest: Seq<char>| #[trigger] (p + rest) != s by {
            assert((p + rest).subrange(0, p.len() as int) =~= p);
        }
    }
    let n = s.len() - p.len();
    if ends_with(s, p) {
        assert(s.take(n) + p =~= s) by {
            assert(s.take(n) + s.subrange(n, n + p.len()) =~= s);
        }
    } else {
        assert forall|rest: Seq<char>| #[trigger] (rest + p) != s by {
            assert((rest + p).subrange(rest.len() as int, (rest.len() + p.len()) as int) =~= p);
        }
    }
}

/// What is found from the end is the last place of the character.
pub proof fn law_rfind_is_last(s: Seq<char>, c: char)
    ensures
        match rfind(s, c) {
            Some(i) => 0 <= i < s.len() && s[i] == c && forall|j: int|
                i < j < s.len() ==> #[trigger] s[j] != c,
            None => !s.contains(c),
        },
    decreases s.len(),
{
    if s.len() > 0 && s.last() != c {
        let t = s.drop_last();
        law_rfind_is_last(t, c);
        match rfind(t, c) {
            Some(i) => {
                assert forall|j: int| i < j < s.len() implies #[trigger] s[j] != c by {
                    if j < t.len() {
                        assert(t[j] == s[j]);
                    }
                }
            },
            None => {
                assert forall|j: int| 0 <= j < s.len() implies s[j] != c by {
                    if j < t.len() {
                        assert(t[j] == s[j]);
                        assert(t.contains(t[j]));
                    }
                }
            },
        }
    }
}

/// Where the first of a character is.
proof fn lemma_index_of_char(s: Seq<char>, c: char)
    ensures
        index_of_char(s, c) <= s.len(),
        index_of_char(s, c) < s.len() ==> s[index_of_char(s, c) as int] == c,
        forall|i: int| 0 <= i < index_of_char(s, c) ==> #[trigger] s[i] != c,
    decreases s.len(),
{
    if s.len() != 0 && s[0] != c {
        let t = s.skip(1);
        lemma_index_of_char(t, c);
        assert forall|i: int| 0 <= i < index_of_char(s, c) implies #[trigger] s[i] != c by {
            if i > 0 {
                assert(t[i - 1] == s[i]);
            }
        }
    }
}

/// Texts put together start with the first of them.
proof fn lemma_joined_front(first: Seq<char>, rest: Seq<Seq<char>>, sep: Seq<char>)
    requires
        rest.len() > 0,
    ensures
        joined_by(seq![first] + rest, sep) == first + sep + joined_by(rest, sep),
    decreases rest.len(),
{
    let all = seq![first] + rest;
    assert(all.last() == rest.last());
    assert(all.drop_last() =~= seq![first] + rest.drop_last());
    if rest.len() == 1 {
        assert(all.drop_last() =~= seq![first]);
        assert(joined_by(seq![first], sep) == first);
    } else {
        lemma_joined_front(first, rest.drop_last(), sep);
        let mid = joined_by(rest.drop_last(), sep);
        assert((first + sep + mid) + sep + rest.last() =~= first + sep + (mid + sep
            + rest.last()));
    }
}

/// The pieces of a text hold none of the characters it is cut at, and put together
/// with that character between them they are the text.
pub proof fn law_pieces(s: Seq<char>, c: char)
    ensures
        pieces(s, c).len() > 0,
        forall|i: int| 0 <= i < pieces(s, c).len() ==> !(#[trigger] pieces(s, c)[i]).contains(c),
        joined_by(pieces(s, c), seq![c]) == s,
    decreases s.len(),
{
    let n = index_of_char(s, c) as int;
    lemma_index_of_char(s, c);
    if n < s.len() {
        let first = s.take(n);
        let rest = pieces(s.skip(n + 1), c);
        law_pieces(s.skip(n + 1), c);
        lemma_joined_front(first, rest, seq![c]);
        assert(first + seq![c] + s.skip(n + 1) =~= s);
        assert forall|i: int| 0 <= i < pieces(s, c).len() implies !(#[trigger] pieces(
            s,
            c,
        )[i]).contains(c) by {
            if i == 0 {
                assert forall|k: int| 0 <= k < first.len() implies first[k] != c by {
                    assert(first[k] == s[k]);
                }
            } else {
                assert(pieces(s, c)[i] == rest[i - 1]);
            }
        }
    } else {
        assert forall|k: int| 0 <= k < s.len() implies s[k] != c by {}
        assert(pieces(s, c) =~= seq![s]);
    }
}

/// Texts put together: none is nothing, one is itself, and each further one comes
/// behind what separates it from those in front of it.
pub proof fn law_joined_by(ls: Seq<Seq<char>>, more: Seq<char>, sep: Seq<char>)
    ensures
        joined_by(seq![], sep) == Seq::<char>::empty(),
        joined_by(seq![more], sep) == more,
        ls.len() > 0 ==> joined_by(ls.push(more), sep) == joined_by(ls, sep) + sep + more,
        ls.len() > 0 ==> joined_by(seq![more] + ls, sep) == more + sep + joined_by(ls, sep),
{
    assert(ls.push(more).drop_last() =~= ls);
    if ls.len() > 0 {
        lemma_joined_front(more, ls, sep);
    }
}

/// A text of one line and what is behind it is cut behind that line: with a line
/// feed in between, or with a carriage return in front of that, which is no part
/// of the line. A last line may lack it.
pub proof fn law_lines(line: Seq<char>, rest: Seq<char>)
    requires
        !line.contains('\n'),
    ensures
        lines(seq![]).len() == 0,
        line.len() > 0 ==> lines(line) == seq![line],
        (line.len() == 0 || line.last() != '\r') ==> lines(line + seq!['\n'] + rest) == seq![line]
            + lines(rest),
        lines(line + seq!['\r', '\n'] + rest) == seq![line] + lines(rest),
{
    lemma_line(line, rest);
    let cr = line + seq!['\r'];
    assert forall|k: int| 0 <= k < cr.len() implies cr[k] != '\n' by {
        if k < line.len() {
            assert(line.contains(line[k]));
        }
    }
    lemma_line(cr, rest);
    assert(cr + seq!['\n'] + rest =~= line + seq!['\r', '\n'] + rest);
    assert(cr.drop_last() =~= line);
    if line.len() > 0 {
        lemma_index_of_char(line, '\n');
        let n = index_of_char(line, '\n') as int;
        if n < line.len() {
            assert(line.contains(line[n]));
        }
    }
}

/// The first line of a text is what is in front of its first line feed.
proof fn lemma_line(line: Seq<char>, rest: Seq<char>)
    requires
        !line.contains('\n'),
    ensures
        lines(line + seq!['\n'] + rest) == seq![without_cr(line)] + lines(rest),
{
    let s = line + seq!['\n'] + rest;
    let n = index_of_char(s, '\n') as int;
    lemma_index_of_char(s, '\n');
    assert(s[line.len() as int] == '\n');
    assert(n <= line.len());
    if n < line.len() {
        assert(s[n] == line[n]);
        assert(line.contains(line[n]));
    }
    assert(s.take(n) =~= line);
    assert(s.skip(n + 1) =~= rest);
}

/// Where a word ends.
proof fn lemma_word_length(s: Seq<char>)
    ensures
        word_length(s) <= s.len(),
        forall|i: int| 0 <= i < word_length(s) ==> !is_white(#[trigger] s[i]),
        word_length(s) < s.len() ==> is_white(s[word_length(s) as int]),
    decreases s.len(),
{
    if s.len() != 0 && !is_white(s[0]) {
        let t = s.skip(1);
        lemma_word_length(t);
        assert forall|i: int| 0 <= i < word_length(s) implies !is_white(#[trigger] s[i]) by {
            if i > 0 {
                assert(t[i - 1] == s[i]);
            }
        }
    }
}

/// Whether a text is a word: it is not empty, and has no white space.
pub open spec fn is_word(w: Seq<char>) -> bool {
    w.len() > 0 && forall|i: int| 0 <= i < w.len() ==> !is_white(#[trigger] w[i])
}

/// White space in front of a text is no part of any word; a word at its end, or
/// with white space behind it, is its first, and the others follow.
pub proof fn law_words(word: Seq<char>, gap: char, rest: Seq<char>)
    requires
        is_word(word),
        is_white(gap),
    ensures
        words(seq![]).len() == 0,
        words(seq![gap] + rest) == words(rest),
        words(word) == seq![word],
        words(word + seq![gap] + rest) == seq![word] + words(rest),
{
    assert((seq![gap] + rest).skip(1) =~= rest);
    assert(trim_start(seq![gap] + rest) == trim_start(rest));
    assert(words(seq![gap] + rest) == words(rest));
    assert(trim_start(word) == word);
    lemma_word_length(word);
    assert(word_length(word) == word.len()) by {
        let n = word_length(word) as int;
        if n < word.len() {
            assert(!is_white(word[n]));
        }
    }
    assert(word.take(word.len() as int) =~= word);
    assert(word.skip(word.len() as int) =~= seq![]);
    assert(words(seq![]) =~= seq![]);
    assert(words(word) =~= seq![word]);
    let s = word + seq![gap] + rest;
    assert(s[0] == word[0] && !is_white(word[0]));
    assert(trim_start(s) == s);
    lemma_word_length(s);
    let n = word_length(s) as int;
    assert(n == word.len()) by {
        assert(s[word.len() as int] == gap);
        if n < word.len() {
            assert(s[n] == word[n]);
        }
    }
    assert(s.take(n) =~= word);
    assert(s.skip(n) =~= seq![gap] + rest);
}

/// Every word of a text is one.
pub proof fn law_words_are_words(s: Seq<char>)
    ensures
        forall|i: int| 0 <= i < words(s).len() ==> is_word(#[trigger] words(s)[i]),
    decreases s.len(),
{
    let t = trim_start(s);
    trim_start_shortens(s);
    if t.len() > 0 {
        lemma_word_length(t);
        let n = word_length(t) as int;
        let rest = words(t.skip(n));
        law_words_are_words(t.skip(n));
        assert forall|i: int| 0 <= i < words(s).len() implies is_word(#[trigger] words(s)[i]) by {
            if i == 0 {
                assert(words(s)[0] == t.take(n));
                assert forall|k: int| 0 <= k < n implies !is_white(#[trigger] t.take(n)[k]) by {
                    assert(t.take(n)[k] == t[k]);
                }
            } else {
                assert(words(s)[i] == rest[i - 1]);
            }
        }
    }
}

/// Nothing, or a sign alone, is no number.
pub proof fn law_blank_is_no_number(max: nat)
    ensures
        unsigned(seq![], max) is None,
        unsigned(seq!['+'], max) is None,
        unsigned(seq!['-'], max) is None,
{
    assert(seq!['+'].skip(1) =~= seq![]);
    assert(seq!['-'].skip(1) =~= seq![]);
    assert(!is_digit('-'));
    if all_digits(seq!['-']) {
        assert(is_digit(seq!['-'][0]));
    }
}

} // verus!
