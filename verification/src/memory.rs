//! Free memory, read off what `vm_stat` prints.
use vstd::prelude::*;

use crate::libimobiledevice::{lossy_text, utf8_lossy};
use crate::text::{
    begins, decimal, is_digit, law_numerals_read_back, lines, lines_of, parse_u64, split_at_first,
    split_once, starts_with, texts, trim, trimmed, unsigned, words, words_of,
};

verus! {

/// The part of `s` behind the first `p`, up to the next `p`.
pub open spec fn second_part(s: Seq<char>, p: Seq<char>) -> Option<Seq<char>> {
    match split_once(s, p) {
        None => None,
        Some((_, rest)) => match split_once(rest, p) {
            Some((a, _)) => Some(a),
            None => Some(rest),
        },
    }
}

/// The part of `s` behind the first `p`, up to the next `p`.
fn second_part_of(s: &str, p: &str) -> (r: Option<String>)
    ensures
        match r {
            Some(x) => second_part(s@, p@) == Some(x@),
            None => second_part(s@, p@) is None,
        },
{
    match split_at_first(s, p) {
        None => None,
        Some((_, rest)) => match split_at_first(rest.as_str(), p) {
            Some((a, _)) => Some(a),
            None => Some(rest),
        },
    }
}

/// `s` without the dots it ends with.
pub open spec fn without_dots(s: Seq<char>) -> Seq<char>
    decreases s.len(),
{
    if s.len() > 0 && s.last() == '.' {
        without_dots(s.drop_last())
    } else {
        s
    }
}

/// `s` without the dots it ends with.
fn drop_dots(s: &str) -> (out: String)
    ensures
        out@ == without_dots(s@),
{
    let v = crate::text::chars_of(s);
    let mut n: usize = v.len();
    assert(v@.take(n as int) =~= v@);
    while n > 0 && v[n - 1] == '.'
        invariant
            n <= v@.len(),
            without_dots(v@) == without_dots(v@.take(n as int)),
        decreases n,
    {
        assert(v@.take(n as int).drop_last() =~= v@.take(n - 1));
        n = n - 1;
    }
    assert(v@.subrange(0, n as int) =~= v@.take(n as int));
    crate::text::part(&v, 0, n)
}

/// The size of a page, from the heading of the listing.
pub open spec fn page_size(ls: Seq<Seq<char>>) -> Option<nat> {
    if ls.len() == 0 {
        None
    } else {
        match second_part(ls[0], "page size of "@) {
            None => None,
            Some(rest) => if words(rest).len() == 0 {
                None
            } else {
                unsigned(words(rest)[0], u64::MAX as nat)
            },
        }
    }
}

/// The first of `ls` that starts with `p`.
pub open spec fn first_starting(ls: Seq<Seq<char>>, p: Seq<char>) -> Option<Seq<char>>
    decreases ls.len(),
{
    if ls.len() == 0 {
        None
    } else if starts_with(ls[0], p) {
        Some(ls[0])
    } else {
        first_starting(ls.skip(1), p)
    }
}

/// The number of free pages, from the line that gives it.
pub open spec fn free_pages(ls: Seq<Seq<char>>) -> Option<nat> {
    match first_starting(ls, "Pages free:"@) {
        None => None,
        Some(line) => match second_part(line, ":"@) {
            None => None,
            Some(count) => unsigned(without_dots(trim(count)), u64::MAX as nat),
        },
    }
}

/// The bytes that a listing says are free, where it says so and the number fits.
pub open spec fn listed_free(text: Seq<char>) -> Option<nat> {
    match (page_size(lines(text)), free_pages(lines(text))) {
        (Some(size), Some(pages)) => if pages * size <= u64::MAX {
            Some(pages * size)
        } else {
            None
        },
        _ => None,
    }
}

/// The bytes that a listing says are free: nothing where it cannot be read, or
/// the number does not fit.
pub fn free_in_listing(text: &str) -> (r: Option<u64>)
    ensures
        match r {
            Some(n) => listed_free(text@) == Some(n as nat),
            None => listed_free(text@) is None,
        },
{
    let ls = lines_of(text);
    let ghost all = lines(text@);
    assert(texts(ls@).len() == ls@.len());
    if ls.len() == 0 {
        return None;
    }
    assert(texts(ls@)[0] == ls@[0]@);
    let size: u64 = match second_part_of(ls[0].as_str(), "page size of ") {
        None => return None,
        Some(rest) => {
            let ws = words_of(rest.as_str());
            assert(texts(ws@).len() == ws@.len());
            if ws.len() == 0 {
                return None;
            }
            assert(texts(ws@)[0] == ws@[0]@);
            match parse_u64(ws[0].as_str()) {
                None => return None,
                Some(n) => n,
            }
        },
    };
    let mut i: usize = 0;
    assert(all.skip(0) =~= all);
    while i < ls.len()
        invariant
            i <= ls@.len(),
            texts(ls@) == all,
            all == lines(text@),
            page_size(all) == Some(size as nat),
            first_starting(all, "Pages free:"@) == first_starting(
                all.skip(i as int),
                "Pages free:"@,
            ),
        decreases ls@.len() - i,
    {
        assert(all.skip(i as int)[0] == texts(ls@)[i as int]);
        assert(texts(ls@)[i as int] == ls@[i as int]@);
        assert(all.skip(i as int).skip(1) =~= all.skip(i + 1));
        if begins(ls[i].as_str(), "Pages free:") {
            let count = match second_part_of(ls[i].as_str(), ":") {
                None => return None,
                Some(count) => count,
            };
            let pages: u64 = match parse_u64(
                drop_dots(trimmed(count.as_str()).as_str()).as_str(),
            ) {
                None => return None,
                Some(n) => n,
            };
            return pages.checked_mul(size);
        }
        i = i + 1;
    }
    None
}

/// The bytes of memory that are free, from how `vm_stat` exited and what it
/// printed: unknown where it failed or cannot be read.
pub fn free_bytes(success: bool, stdout: &[u8]) -> (r: Option<u64>)
    ensures
        !success ==> r is None,
        success ==> match r {
            Some(n) => listed_free(utf8_lossy(stdout@)) == Some(n as nat),
            None => listed_free(utf8_lossy(stdout@)) is None,
        },
{
    if success {
        free_in_listing(lossy_text(stdout).as_str())
    } else {
        None
    }
}

/// The part behind the first separator goes up to the next, or to the end.
pub proof fn law_second_part(s: Seq<char>, p: Seq<char>)
    ensures
        match split_once(s, p) {
            None => second_part(s, p) is None,
            Some((_, rest)) => match split_once(rest, p) {
                None => second_part(s, p) == Some(rest),
                Some((a, _)) => second_part(s, p) == Some(a),
            },
        },
{
}

/// Dots are taken off the end, all of them and nothing else.
pub proof fn law_without_dots(s: Seq<char>) -> (n: int)
    ensures
        0 <= n <= s.len(),
        without_dots(s) == s.take(n),
        forall|i: int| n <= i < s.len() ==> #[trigger] s[i] == '.',
        n > 0 ==> s[n - 1] != '.',
    decreases s.len(),
{
    if s.len() > 0 && s.last() == '.' {
        let n = law_without_dots(s.drop_last());
        assert(s.drop_last().take(n) =~= s.take(n));
        assert forall|i: int| n <= i < s.len() implies #[trigger] s[i] == '.' by {
            if i < s.len() - 1 {
                assert(s.drop_last()[i] == s[i]);
            }
        }
        n
    } else {
        assert(s.take(s.len() as int) =~= s);
        s.len() as int
    }
}

/// The line taken is the first that starts as it should.
pub proof fn law_first_starting(ls: Seq<Seq<char>>, p: Seq<char>)
    ensures
        forall|i: int|
            0 <= i < ls.len() && starts_with(#[trigger] ls[i], p) && (forall|j: int|
                0 <= j < i ==> !starts_with(#[trigger] ls[j], p)) ==> first_starting(ls, p) == Some(
                ls[i],
            ),
        (forall|i: int| 0 <= i < ls.len() ==> !starts_with(#[trigger] ls[i], p)) ==> first_starting(
            ls,
            p,
        ) is None,
    decreases ls.len(),
{
    if ls.len() > 0 && !starts_with(ls[0], p) {
        let rest = ls.skip(1);
        law_first_starting(rest, p);
        assert forall|i: int|
            0 <= i < ls.len() && starts_with(#[trigger] ls[i], p) && (forall|j: int|
                0 <= j < i ==> !starts_with(#[trigger] ls[j], p)) implies first_starting(ls, p)
            == Some(ls[i]) by {
            assert(rest[i - 1] == ls[i]);
            assert forall|j: int| 0 <= j < i - 1 implies !starts_with(#[trigger] rest[j], p) by {
                assert(!starts_with(ls[j + 1], p));
            }
        }
        if forall|i: int| 0 <= i < ls.len() ==> !starts_with(#[trigger] ls[i], p) {
            assert forall|i: int| 0 <= i < rest.len() implies !starts_with(
                #[trigger] rest[i],
                p,
            ) by {
                assert(!starts_with(ls[i + 1], p));
            }
        }
    }
}

/// The free pages are the number behind the colon, without the dot it ends with.
pub proof fn law_free_pages(ls: Seq<Seq<char>>, line: Seq<char>, count: Seq<char>, n: nat)
    requires
        first_starting(ls, "Pages free:"@) == Some(line),
        second_part(line, ":"@) == Some(count),
        trim(count) == decimal(n) + seq!['.'],
        n <= u64::MAX,
    ensures
        free_pages(ls) == Some(n),
{
    let s = decimal(n) + seq!['.'];
    law_numerals_read_back(n, u64::MAX as nat);
    let k = law_without_dots(s);
    let m = decimal(n).len() as int;
    assert(s[m] == '.');
    assert(is_digit(decimal(n)[m - 1]));
    assert(s[m - 1] == decimal(n)[m - 1]);
    if k > m {
        assert(s[k - 1] == '.');
    }
    if k < m {
        assert(s[m - 1] == '.');
    }
    assert(s.take(m) =~= decimal(n));
}

/// The size of a page is the first number behind its heading.
pub proof fn law_page_size(ls: Seq<Seq<char>>, rest: Seq<char>, n: nat)
    requires
        ls.len() > 0,
        second_part(ls[0], "page size of "@) == Some(rest),
        words(rest).len() > 0,
        words(rest)[0] == decimal(n),
        n <= u64::MAX,
    ensures
        page_size(ls) == Some(n),
{
    law_numerals_read_back(n, u64::MAX as nat);
}

/// What is free is as many pages as are free, of the size they have; nothing is said
/// where either is missing, or the product does not fit.
pub proof fn law_free_memory(text: Seq<char>)
    ensures
        match (page_size(lines(text)), free_pages(lines(text))) {
            (Some(size), Some(pages)) => listed_free(text) == (if size * pages <= u64::MAX {
                Some(size * pages)
            } else {
                None
            }),
            _ => listed_free(text) is None,
        },
{
    if let (Some(size), Some(pages)) = (page_size(lines(text)), free_pages(lines(text))) {
        assert(size * pages == pages * size) by (nonlinear_arith);
    }
}

} // verus!
