//! The desktop notification that asks for attention.
use vstd::prelude::*;

use crate::text::chars_of;

verus! {

/// A character as it is written inside an AppleScript string.
pub open spec fn escaped_char(c: char) -> Seq<char> {
    if c == '\\' || c == '"' {
        seq!['\\', c]
    } else {
        seq![c]
    }
}

/// A text as it is written inside an AppleScript string.
pub open spec fn escaped(s: Seq<char>) -> Seq<char>
    decreases s.len(),
{
    if s.len() == 0 {
        seq![]
    } else {
        escaped(s.drop_last()) + escaped_char(s.last())
    }
}

/// The AppleScript string that stands for a text.
pub open spec fn literal(s: Seq<char>) -> Seq<char> {
    seq!['"'] + escaped(s) + seq!['"']
}

/// The AppleScript string that stands for `s`.
pub fn applescript_string_literal(s: &str) -> (out: String)
    ensures
        out@ == literal(s@),
{
    let v = chars_of(s);
    let mut out = String::new();
    out.push('"');
    let mut i: usize = 0;
    assert(out@ =~= seq!['"'] + escaped(v@.take(0)));
    while i < v.len()
        invariant
            i <= v@.len(),
            out@ == seq!['"'] + escaped(v@.take(i as int)),
        decreases v@.len() - i,
    {
        let c = v[i];
        let ghost before = out@;
        if c == '\\' || c == '"' {
            out.push('\\');
        }
        out.push(c);
        proof {
            let now = v@.take(i + 1);
            assert(now.drop_last() =~= v@.take(i as int));
            assert(now.last() == c);
            assert(out@ =~= before + escaped_char(c));
            assert(seq!['"'] + (escaped(now.drop_last()) + escaped_char(c)) =~= before
                + escaped_char(c));
        }
        i = i + 1;
    }
    assert(v@.take(i as int) =~= v@);
    out.push('"');
    assert(out@ =~= literal(s@));
    out
}

/// The script that shows a notification with a title and a message.
pub fn alert(title: &str, message: &str) -> (script: String)
    ensures
        script@ == "display notification "@ + literal(message@) + " with title "@ + literal(title@),
{
    "display notification ".to_owned().concat(
        applescript_string_literal(message).as_str(),
    ).concat(" with title ").concat(applescript_string_literal(title).as_str())
}

/// What is read back from inside an AppleScript string: a backslash stands for
/// the character behind it, and a quotation mark without one would end the
/// string before its end.
pub open spec fn unescaped(s: Seq<char>) -> Option<Seq<char>>
    decreases s.len(),
{
    if s.len() == 0 {
        Some(seq![])
    } else if s[0] == '"' || (s[0] == '\\' && s.len() == 1) {
        None
    } else {
        let (c, rest) = if s[0] == '\\' {
            (s[1], s.skip(2))
        } else {
            (s[0], s.skip(1))
        };
        match unescaped(rest) {
            Some(behind) => Some(seq![c] + behind),
            None => None,
        }
    }
}

/// Escaping goes character by character from the front too.
proof fn escaped_from_front(s: Seq<char>)
    requires
        s.len() > 0,
    ensures
        escaped(s) == escaped_char(s[0]) + escaped(s.skip(1)),
    decreases s.len(),
{
    if s.len() == 1 {
        assert(s.drop_last() =~= seq![]);
        assert(s.skip(1) =~= seq![]);
        assert(escaped(s) =~= escaped_char(s[0]) + escaped(s.skip(1)));
    } else {
        escaped_from_front(s.drop_last());
        assert(s.drop_last().skip(1) =~= s.skip(1).drop_last());
        assert(escaped(s) =~= escaped_char(s[0]) + escaped(s.skip(1)));
    }
}

/// Whatever the text, the string written for it stands for that text, and does
/// not end before its end.
pub proof fn law_literal_reads_back(s: Seq<char>)
    ensures
        unescaped(escaped(s)) == Some(s),
    decreases s.len(),
{
    if s.len() > 0 {
        escaped_from_front(s);
        law_literal_reads_back(s.skip(1));
        let e = escaped(s);
        let c = s[0];
        if c == '\\' || c == '"' {
            assert(e.skip(2) =~= escaped(s.skip(1)));
        } else {
            assert(e.skip(1) =~= escaped(s.skip(1)));
        }
        assert(seq![c] + s.skip(1) =~= s);
    }
}

/// A string is in quotation marks, and only the characters that would end it, or hide
/// one, are escaped.
pub proof fn law_literal(s: Seq<char>, c: char)
    ensures
        literal(s).len() >= 2 && literal(s)[0] == '"' && literal(s).last() == '"',
        literal(s).subrange(1, literal(s).len() - 1) == escaped(s),
        c != '"' && c != '\\' ==> escaped(s.push(c)) == escaped(s).push(c),
        c == '"' || c == '\\' ==> escaped(s.push(c)) == escaped(s).push('\\').push(c),
{
    assert(s.push(c).drop_last() =~= s);
    assert(literal(s).subrange(1, literal(s).len() - 1) =~= escaped(s));
    assert(escaped(s) + seq![c] =~= escaped(s).push(c));
    assert(escaped(s) + seq!['\\', c] =~= escaped(s).push('\\').push(c));
}

} // verus!
