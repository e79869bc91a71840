//! Paths as text: their components, and the places Cradle keeps things at.
use vstd::prelude::*;

use crate::text::{
    begins, chars_of, law_rfind_is_last, part, pieces, pieces_of, rfind, rfind_in, same_text, texts,
    texts_push,
};

verus! {

broadcast use texts_push;

/// `b` below `a`; an absolute `b` stands for itself.
pub open spec fn joined(a: Seq<char>, b: Seq<char>) -> Seq<char> {
    if b.len() > 0 && b[0] == '/' {
        b
    } else if a.len() == 0 || a.last() == '/' {
        a + b
    } else {
        a.push('/') + b
    }
}

/// `b` below `a`; an absolute `b` stands for itself.
pub fn join(a: &str, b: &str) -> (out: String)
    ensures
        out@ == joined(a@, b@),
{
    let v = chars_of(b);
    if v.len() > 0 && v[0] == '/' {
        return b.to_owned();
    }
    let w = chars_of(a);
    let mut out = a.to_owned();
    if w.len() > 0 && w[w.len() - 1] != '/' {
        out.push('/');
    }
    out.append(b);
    out
}

/// The part of `s` behind its last slash.
pub open spec fn last_segment(s: Seq<char>) -> Seq<char> {
    match rfind(s, '/') {
        Some(i) => s.skip(i + 1),
        None => s,
    }
}

/// A path without the slashes and `.` components it ends with. The root and a
/// lone `.` stay.
pub open spec fn cut(s: Seq<char>) -> Seq<char>
    decreases s.len(),
{
    if s.len() <= 1 {
        s
    } else if s.last() == '/' || (s.last() == '.' && s[s.len() - 2] == '/') {
        cut(s.drop_last())
    } else {
        s
    }
}

/// The directory a path lies in: none for the root and for nothing.
pub open spec fn parent(s: Seq<char>) -> Option<Seq<char>> {
    let t = cut(s);
    if t.len() == 0 || t == seq!['/'] {
        None
    } else {
        match rfind(t, '/') {
            None => Some(seq![]),
            Some(i) => Some(cut(t.take(i + 1))),
        }
    }
}

/// The last component of a path, where that is a name.
pub open spec fn file_name(s: Seq<char>) -> Option<Seq<char>> {
    let t = cut(s);
    let last = last_segment(t);
    if t.len() == 0 || t == seq!['/'] || last == seq!['.'] || last == seq!['.', '.'] {
        None
    } else {
        Some(last)
    }
}

/// Where `cut` leaves off.
fn cut_end(v: &Vec<char>, len: usize) -> (end: usize)
    requires
        len <= v@.len(),
    ensures
        end <= len,
        v@.take(end as int) == cut(v@.take(len as int)),
{
    let mut n: usize = len;
    while n > 1 && (v[n - 1] == '/' || (v[n - 1] == '.' && v[n - 2] == '/'))
        invariant
            n <= len <= v@.len(),
            cut(v@.take(len as int)) == cut(v@.take(n as int)),
        decreases n,
    {
        proof {
            let t = v@.take(n as int);
            assert(t.last() == v@[n - 1]);
            assert(t[t.len() - 2] == v@[n - 2]);
            assert(t.drop_last() =~= v@.take(n - 1));
        }
        n = n - 1;
    }
    proof {
        let t = v@.take(n as int);
        if n > 1 {
            assert(t.last() == v@[n - 1]);
            assert(t[t.len() - 2] == v@[n - 2]);
        }
    }
    n
}

/// The directory a path lies in.
pub fn parent_of(s: &str) -> (r: Option<String>)
    ensures
        match r {
            Some(p) => parent(s@) == Some(p@),
            None => parent(s@) is None,
        },
{
    let v = chars_of(s);
    assert(v@.take(v@.len() as int) =~= v@);
    let n = cut_end(&v, v.len());
    let ghost t = v@.take(n as int);
    if n == 0 {
        return None;
    }
    if n == 1 && v[0] == '/' {
        assert(t =~= seq!['/']);
        return None;
    }
    assert(t != seq!['/']) by {
        assert(t[0] == v@[0]);
        assert(t.len() == n);
        assert(seq!['/'].len() == 1 && seq!['/'][0] == '/');
    }
    let head = part(&v, 0, n);
    assert(head@ =~= t);
    let w = chars_of(head.as_str());
    match rfind_in(w.as_slice(), '/') {
        None => Some(String::new()),
        Some(i) => {
            let end = cut_end(&w, i + 1);
            assert(w@.subrange(0, end as int) =~= w@.take(end as int));
            Some(part(&w, 0, end))
        },
    }
}

/// The last component of a path, where that is a name.
pub fn file_name_of(s: &str) -> (r: Option<String>)
    ensures
        match r {
            Some(p) => file_name(s@) == Some(p@),
            None => file_name(s@) is None,
        },
{
    let v = chars_of(s);
    assert(v@.take(v@.len() as int) =~= v@);
    let n = cut_end(&v, v.len());
    let ghost t = v@.take(n as int);
    if n == 0 {
        return None;
    }
    if n == 1 && v[0] == '/' {
        assert(t =~= seq!['/']);
        return None;
    }
    assert(t != seq!['/']) by {
        assert(t[0] == v@[0]);
        assert(t.len() == n);
        assert(seq!['/'].len() == 1 && seq!['/'][0] == '/');
    }
    let head = part(&v, 0, n);
    assert(head@ =~= t);
    let w = chars_of(head.as_str());
    let last = match rfind_in(w.as_slice(), '/') {
        None => head,
        Some(i) => {
            assert(w@.subrange(i + 1, w@.len() as int) =~= w@.skip(i + 1));
            part(&w, i + 1, w.len())
        },
    };
    proof {
        reveal_strlit(".");
        reveal_strlit("..");
        assert("."@ =~= seq!['.']);
        assert(".."@ =~= seq!['.', '.']);
    }
    if same_text(last.as_str(), ".") || same_text(last.as_str(), "..") {
        None
    } else {
        Some(last)
    }
}

/// Those of `ps` that name something: not blank, and not `.`.
pub open spec fn names(ps: Seq<Seq<char>>) -> Seq<Seq<char>>
    decreases ps.len(),
{
    if ps.len() == 0 {
        seq![]
    } else {
        let rest = names(ps.drop_last());
        if ps.last().len() == 0 || ps.last() == seq!['.'] {
            rest
        } else {
            rest.push(ps.last())
        }
    }
}

/// The components of a path: `/` first where it is absolute, `.` first where
/// it starts with that, and the names.
pub open spec fn components(s: Seq<char>) -> Seq<Seq<char>> {
    let ps = pieces(s, '/');
    if s.len() > 0 && s[0] == '/' {
        seq![seq!['/']] + names(ps)
    } else if ps[0] == seq!['.'] {
        seq![seq!['.']] + names(ps)
    } else {
        names(ps)
    }
}

/// The components of a path.
pub fn components_of(s: &str) -> (out: Vec<String>)
    ensures
        texts(out@) == components(s@),
{
    let ps = pieces_of(s, '/');
    let mut out: Vec<String> = Vec::new();
    proof {
        reveal_strlit(".");
        reveal_strlit("/");
        assert("."@ =~= seq!['.']);
        assert("/"@ =~= seq!['/']);
        assert(texts(out@) =~= seq![]);
        assert(texts(ps@).len() > 0);
        assert(texts(ps@)[0] == ps@[0]@);
        assert(s@.len() > 0 && s@[0] == '/' <==> crate::text::starts_with(s@, "/"@)) by {
            if s@.len() > 0 {
                assert(s@.subrange(0, 1) =~= seq![s@[0]]);
            }
            if s@.len() > 0 && s@.subrange(0, 1) == seq!['/'] {
                assert(s@.subrange(0, 1)[0] == '/');
            }
        }
    }
    if begins(s, "/") {
        out.push("/".to_owned());
    } else if same_text(ps[0].as_str(), ".") {
        out.push(".".to_owned());
    }
    let ghost head = texts(out@);
    let mut i: usize = 0;
    assert(head + names(texts(ps@).take(0)) =~= head);
    while i < ps.len()
        invariant
            i <= ps@.len(),
            "."@ == seq!['.'],
            texts(out@) == head + names(texts(ps@).take(i as int)),
        decreases ps@.len() - i,
    {
        proof {
            let now = texts(ps@).take(i + 1);
            assert(now.drop_last() =~= texts(ps@).take(i as int));
            assert(now.last() == ps@[i as int]@);
        }
        if ps[i].as_str().unicode_len() > 0 && !same_text(ps[i].as_str(), ".") {
            out.push(ps[i].clone());
            assert(texts(out@) =~= head + names(texts(ps@).take(i as int)).push(ps@[i as int]@));
        }
        i = i + 1;
    }
    assert(texts(ps@).take(i as int) =~= texts(ps@));
    assert(head + names(texts(ps@)) =~= components(s@));
    out
}

/// Whether the path with components `a` lies at or below that with components `b`.
pub open spec fn within(a: Seq<Seq<char>>, b: Seq<Seq<char>>) -> bool {
    b.len() <= a.len() && a.take(b.len() as int) == b
}

/// Whether `a` lies at or below `b`.
pub fn lies_within(a: &str, b: &str) -> (r: bool)
    ensures
        r == within(components(a@), components(b@)),
{
    let x = components_of(a);
    let y = components_of(b);
    if y.len() > x.len() {
        return false;
    }
    let mut i: usize = 0;
    while i < y.len()
        invariant
            i <= y@.len() <= x@.len(),
            texts(x@) == components(a@),
            texts(y@) == components(b@),
            forall|k: int| 0 <= k < i ==> texts(x@)[k] == texts(y@)[k],
        decreases y@.len() - i,
    {
        assert(texts(x@)[i as int] == x@[i as int]@);
        assert(texts(y@)[i as int] == y@[i as int]@);
        if !same_text(x[i].as_str(), y[i].as_str()) {
            assert(texts(x@).take(y@.len() as int)[i as int] != texts(y@)[i as int]);
            return false;
        }
        i = i + 1;
    }
    assert(texts(x@).take(y@.len() as int) =~= texts(y@));
    true
}

/// Whether `a` and `b` are the same path.
pub fn same_path(a: &str, b: &str) -> (r: bool)
    ensures
        r == (components(a@) == components(b@)),
{
    let r = lies_within(a, b) && lies_within(b, a);
    proof {
        let x = components(a@);
        let y = components(b@);
        if r {
            assert(x.take(y.len() as int) =~= x);
        }
        if x == y {
            assert(x.take(y.len() as int) =~= y);
            assert(y.take(x.len() as int) =~= x);
        }
    }
    r
}

/// The directory Cradle keeps things below: in the home directory, or the
/// temporary one where there is no home.
pub open spec fn base(home: Option<Seq<char>>, temp: Seq<char>) -> Seq<char> {
    joined(
        match home {
            Some(h) => h,
            None => temp,
        },
        "Cradle"@,
    )
}

/// The characters of a text that may be missing.
pub open spec fn opt_text(s: Option<&str>) -> Option<Seq<char>> {
    match s {
        Some(t) => Some(t@),
        None => None,
    }
}

/// The directory Cradle keeps things below.
fn base_dir(home: Option<&str>, temp: &str) -> (out: String)
    ensures
        out@ == base(opt_text(home), temp@),
{
    match home {
        Some(h) => join(h, "Cradle"),
        None => join(temp, "Cradle"),
    }
}

/// Where backups are kept unless told otherwise.
pub fn default_working_dir(home: Option<&str>, temp: &str) -> (out: String)
    ensures
        out@ == joined(base(opt_text(home), temp@), "working"@),
{
    join(base_dir(home, temp).as_str(), "working")
}

/// Where restores are staged unless told otherwise.
pub fn default_scratch_dir(home: Option<&str>, temp: &str) -> (out: String)
    ensures
        out@ == joined(base(opt_text(home), temp@), "scratch"@),
{
    join(base_dir(home, temp).as_str(), "scratch")
}

/// One path below another: with one slash between them, unless the second is absolute
/// and stands for itself.
pub proof fn law_joined(a: Seq<char>, b: Seq<char>)
    ensures
        b.len() > 0 && b[0] == '/' ==> joined(a, b) == b,
        !(b.len() > 0 && b[0] == '/') && a.len() > 0 && a.last() != '/' ==> joined(a, b) == a
            + seq!['/'] + b,
        !(b.len() > 0 && b[0] == '/') && a.len() > 0 && a.last() == '/' ==> joined(a, b) == a + b,
        !(b.len() > 0 && b[0] == '/') && a.len() == 0 ==> joined(a, b) == b,
{
    assert(a.push('/') + b =~= a + seq!['/'] + b);
    if a.len() == 0 {
        assert(a + b =~= b);
    }
}

/// What is below a path under a plain name has that name, and lies in that path.
pub proof fn law_name_and_parent(a: Seq<char>, b: Seq<char>)
    requires
        b.len() > 0,
        !b.contains('/'),
        b != seq!['.'],
        b != seq!['.', '.'],
    ensures
        file_name(joined(a, b)) == Some(b),
        parent(joined(a, b)) == Some(cut(a)),
{
    let s = joined(a, b);
    assert(b.contains(b[0]) && b.contains(b.last()));
    let n = s.len() as int;
    let m = b.len() as int;
    assert(s.skip(n - m) =~= b);
    assert(s.last() == b.last());
    if s.last() == '.' && n > 1 && s[n - 2] == '/' {
        if m > 1 {
            assert(s[n - 2] == b[m - 2]);
            assert(b.contains(b[m - 2]));
        } else {
            assert(b =~= seq!['.']);
        }
    }
    assert(cut(s) == s);
    assert(s != seq!['/']) by {
        assert(seq!['/'].last() == '/');
    }
    law_rfind_is_last(s, '/');
    if a.len() == 0 {
        assert(s =~= b);
        assert(rfind(s, '/') is None);
        assert(cut(a) =~= seq![]);
    } else {
        let i = n - m - 1;
        assert(s[i] == '/');
        assert forall|j: int| i < j < n implies s[j] != '/' by {
            assert(s[j] == b[j - i - 1]);
            assert(b.contains(b[j - i - 1]));
        }
        assert(s.contains('/'));
        assert(rfind(s, '/') == Some(i));
        assert(s.skip(i + 1) =~= b);
        if a.last() == '/' {
            assert(s.take(i + 1) =~= a);
        } else {
            assert(s.take(i + 1) =~= a.push('/'));
            assert(a.push('/').drop_last() =~= a);
        }
    }
}

/// Cutting takes slashes and dots off the end only, and leaves no slash there but the
/// root's.
pub proof fn law_cut(s: Seq<char>) -> (n: int)
    ensures
        0 <= n <= s.len(),
        cut(s) == s.take(n),
        s.len() > 0 ==> n > 0,
        forall|i: int| n <= i < s.len() ==> #[trigger] s[i] == '/' || s[i] == '.',
        n > 1 ==> s[n - 1] != '/' && !(s[n - 1] == '.' && s[n - 2] == '/'),
    decreases s.len(),
{
    if s.len() <= 1 {
        assert(s.take(s.len() as int) =~= s);
        s.len() as int
    } else if s.last() == '/' || (s.last() == '.' && s[s.len() - 2] == '/') {
        let n = law_cut(s.drop_last());
        assert(s.drop_last().take(n) =~= s.take(n));
        assert forall|i: int| n <= i < s.len() implies #[trigger] s[i] == '/' || s[i] == '.' by {
            if i < s.len() - 1 {
                assert(s.drop_last()[i] == s[i]);
            }
        }
        n
    } else {
        assert(s.take(s.len() as int) =~= s);
        s.len() as int
    }
}

/// The root, and nothing, lie in no directory and have no name; `.` and `..` are no
/// names.
pub proof fn law_no_name()
    ensures
        parent(seq!['/']) is None,
        parent(seq![]) is None,
        file_name(seq!['/']) is None,
        file_name(seq![]) is None,
        file_name(seq!['.', '.']) is None,
        file_name(seq!['.']) is None,
{
    law_rfind_is_last(seq!['.', '.'], '/');
    law_rfind_is_last(seq!['.'], '/');
    assert(seq!['/'].len() == 1 && seq!['.'].len() == 1 && seq!['.', '.'].len() == 2);
    assert(cut(seq!['.', '.']) == seq!['.', '.']);
    assert(!seq!['.', '.'].contains('/'));
    assert(!seq!['.'].contains('/'));
    if let Some(i) = rfind(seq!['.', '.'], '/') {
        assert(seq!['.', '.'][i] == '/');
    }
    if let Some(i) = rfind(seq!['.'], '/') {
        assert(seq!['.'][i] == '/');
    }
}

/// Of the parts between slashes, all but blank ones and lone dots are names, in order.
pub proof fn law_names(ps: Seq<Seq<char>>, p: Seq<char>)
    ensures
        names(seq![]).len() == 0,
        names(ps.push(p)) == (if p == Seq::<char>::empty() || p == seq!['.'] {
            names(ps)
        } else {
            names(ps).push(p)
        }),
{
    assert(ps.push(p).drop_last() =~= ps);
    if p.len() == 0 {
        assert(p =~= Seq::<char>::empty());
    }
}

/// An absolute path starts with the root, and no other does; the rest is names.
pub proof fn law_components(s: Seq<char>)
    ensures
        s.len() > 0 && s[0] == '/' ==> components(s) == seq![seq!['/']] + names(pieces(s, '/')),
        !(s.len() > 0 && s[0] == '/') && pieces(s, '/')[0] != seq!['.'] ==> components(s) == names(
            pieces(s, '/'),
        ),
        !(s.len() > 0 && s[0] == '/') && pieces(s, '/')[0] == seq!['.'] ==> components(s) == seq![
            seq!['.'],
        ] + names(pieces(s, '/')),
{
}

/// A path lies within another just when it starts with all of its components.
pub proof fn law_within(a: Seq<Seq<char>>, b: Seq<Seq<char>>)
    ensures
        within(a, b) <==> b.len() <= a.len() && forall|i: int| 0 <= i < b.len() ==> a[i] == b[i],
{
    if within(a, b) {
        assert forall|i: int| 0 <= i < b.len() implies a[i] == b[i] by {
            assert(a.take(b.len() as int)[i] == a[i]);
        }
    }
    if b.len() <= a.len() && forall|i: int| 0 <= i < b.len() ==> a[i] == b[i] {
        assert(a.take(b.len() as int) =~= b);
    }
}

/// Things are kept below the home directory, and below the temporary one only where
/// there is no home.
pub proof fn law_base(home: Seq<char>, temp: Seq<char>)
    ensures
        base(Some(home), temp) == joined(home, "Cradle"@),
        base(None, temp) == joined(temp, "Cradle"@),
{
}

} // verus!
