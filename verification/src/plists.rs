//! Property lists, as far as the library reads them: the members of the root
//! dictionary that are texts, flags or bytes.
use vstd::prelude::*;

use crate::dates::{dates_fit, has_dates_that_fit};
use crate::text::same_text;

verus! {

/// A member of a property list's root dictionary.
#[derive(Debug)]
pub enum PlistValue {
    Text(String),
    Flag(bool),
    Bytes(Vec<u8>),
    /// A value of a kind that is never read.
    Unread,
}

/// A [`PlistValue`] with its text and its bytes as sequences.
pub enum PlistView {
    Text(Seq<char>),
    Flag(bool),
    Bytes(Seq<u8>),
    Unread,
}

impl View for PlistValue {
    type V = PlistView;

    open spec fn view(&self) -> PlistView {
        match self {
            PlistValue::Text(s) => PlistView::Text(s@),
            PlistValue::Flag(b) => PlistView::Flag(*b),
            PlistValue::Bytes(b) => PlistView::Bytes(b@),
            PlistValue::Unread => PlistView::Unread,
        }
    }
}

/// The members of a root dictionary.
pub open spec fn member_views(v: Seq<(String, PlistValue)>) -> Seq<(Seq<char>, PlistView)> {
    v.map_values(|m: (String, PlistValue)| (m.0@, m.1@))
}

/// The members of the root dictionary of a property list, none where the root
/// is no dictionary; or the reader's words for why it cannot be read.
pub uninterp spec fn plist_members(bytes: Seq<u8>) -> Result<
    Seq<(Seq<char>, PlistView)>,
    Seq<char>,
>;

/// Calls `plist::Value::from_reader` and hands out the entries of the
/// dictionary it gives. They, or the words of the error, depend on the bytes
/// alone. A date of an XML list that is past the last day in UTC makes it panic,
/// hence the demand on the dates: it reads the list's markup as
/// [`fits_from`](crate::dates::fits_from) does, as long as it finds no fault. How
/// deep the list is nested, and how often a part of a binary list is shared, it
/// bounds by stack and memory only.
#[verifier::external_body]
fn parse_plist(bytes: &[u8]) -> (r: Result<Vec<(String, PlistValue)>, String>)
    requires
        dates_fit(bytes@),
    ensures
        match r {
            Ok(members) => plist_members(bytes@) == Ok::<_, Seq<char>>(member_views(members@)),
            Err(words) => plist_members(bytes@) == Err::<Seq<(Seq<char>, PlistView)>, _>(words@),
        },
{
    let value = plist::Value::from_reader(std::io::Cursor::new(bytes)).map_err(|e| e.to_string())?;
    let entries = value.into_dictionary().unwrap_or_default().into_iter();
    Ok(entries.map(|(key, v)| (key, match v {
        plist::Value::String(s) => PlistValue::Text(s),
        plist::Value::Boolean(b) => PlistValue::Flag(b),
        plist::Value::Data(d) => PlistValue::Bytes(d),
        _ => PlistValue::Unread,
    })).collect())
}

/// The member called `key`.
pub open spec fn member(v: Seq<(Seq<char>, PlistView)>, key: Seq<char>) -> Option<PlistView>
    decreases v.len(),
{
    if v.len() == 0 {
        None
    } else if v[0].0 == key {
        Some(v[0].1)
    } else {
        member(v.skip(1), key)
    }
}

/// The place of the member called `key`.
fn place_of(v: &Vec<(String, PlistValue)>, key: &str) -> (r: Option<usize>)
    ensures
        match r {
            Some(i) => i < v@.len() && member(member_views(v@), key@) == Some(v@[i as int].1@),
            None => member(member_views(v@), key@) is None,
        },
{
    let ghost all = member_views(v@);
    let mut i: usize = 0;
    assert(all.skip(0) =~= all);
    while i < v.len()
        invariant
            i <= v@.len(),
            all == member_views(v@),
            member(all, key@) == member(all.skip(i as int), key@),
        decreases v@.len() - i,
    {
        assert(all.skip(i as int)[0] == (v@[i as int].0@, v@[i as int].1@));
        if same_text(v[i].0.as_str(), key) {
            return Some(i);
        }
        assert(all.skip(i as int).skip(1) =~= all.skip(i + 1));
        i = i + 1;
    }
    None
}

/// The text called `key`.
pub open spec fn text_member(v: Seq<(Seq<char>, PlistView)>, key: Seq<char>) -> Option<Seq<char>> {
    match member(v, key) {
        Some(PlistView::Text(s)) => Some(s),
        _ => None,
    }
}

/// The flag called `key`.
pub open spec fn flag_member(v: Seq<(Seq<char>, PlistView)>, key: Seq<char>) -> Option<bool> {
    match member(v, key) {
        Some(PlistView::Flag(b)) => Some(b),
        _ => None,
    }
}

/// The bytes called `key`.
pub open spec fn bytes_member(v: Seq<(Seq<char>, PlistView)>, key: Seq<char>) -> Option<Seq<u8>> {
    match member(v, key) {
        Some(PlistView::Bytes(b)) => Some(b),
        _ => None,
    }
}

/// The text called `key`.
pub fn find_text(v: &Vec<(String, PlistValue)>, key: &str) -> (r: Option<String>)
    ensures
        match r {
            Some(s) => text_member(member_views(v@), key@) == Some(s@),
            None => text_member(member_views(v@), key@) is None,
        },
{
    match place_of(v, key) {
        Some(i) => match &v[i].1 {
            PlistValue::Text(s) => Some(s.clone()),
            _ => None,
        },
        None => None,
    }
}

/// The flag called `key`.
pub fn find_flag(v: &Vec<(String, PlistValue)>, key: &str) -> (r: Option<bool>)
    ensures
        r == flag_member(member_views(v@), key@),
{
    match place_of(v, key) {
        Some(i) => match &v[i].1 {
            PlistValue::Flag(b) => Some(*b),
            _ => None,
        },
        None => None,
    }
}

/// The bytes called `key`.
pub fn find_bytes<'a>(v: &'a Vec<(String, PlistValue)>, key: &str) -> (r: Option<&'a [u8]>)
    ensures
        match r {
            Some(b) => bytes_member(member_views(v@), key@) == Some(b@),
            None => bytes_member(member_views(v@), key@) is None,
        },
{
    match place_of(v, key) {
        Some(i) => match &v[i].1 {
            PlistValue::Bytes(b) => Some(b.as_slice()),
            _ => None,
        },
        None => None,
    }
}

/// What is said of a property list with a date past the last that can be held.
pub const DATE_OUT_OF_RANGE: &'static str = "a date is out of range";

/// The members of the property list in a file, from its bytes or the words for
/// why those could not be had. One with a date past the last day is refused.
pub open spec fn file_members(file: Result<Seq<u8>, Seq<char>>) -> Result<
    Seq<(Seq<char>, PlistView)>,
    Seq<char>,
> {
    match file {
        Ok(bytes) => if dates_fit(bytes) {
            plist_members(bytes)
        } else {
            Err(DATE_OUT_OF_RANGE@)
        },
        Err(words) => Err(words),
    }
}

/// What was read of a file, as sequences.
pub open spec fn file_view(file: Result<&[u8], String>) -> Result<Seq<u8>, Seq<char>> {
    match file {
        Ok(bytes) => Ok(bytes@),
        Err(words) => Err(words@),
    }
}

/// What was read of a property list, as sequences.
pub open spec fn members_view(members: Result<Vec<(String, PlistValue)>, String>) -> Result<
    Seq<(Seq<char>, PlistView)>,
    Seq<char>,
> {
    match members {
        Ok(v) => Ok(member_views(v@)),
        Err(words) => Err(words@),
    }
}

/// The members of the property list in a file.
pub fn read_members(file: &Result<&[u8], String>) -> (r: Result<
    Vec<(String, PlistValue)>,
    String,
>)
    ensures
        members_view(r) == file_members(file_view(*file)),
{
    match file {
        Ok(bytes) => if has_dates_that_fit(bytes) {
            parse_plist(bytes)
        } else {
            Err(DATE_OUT_OF_RANGE.to_owned())
        },
        Err(words) => Err(words.clone()),
    }
}

/// The member found is the first with its key, and one is found just when there is
/// one.
pub proof fn law_first_member_is_found(v: Seq<(Seq<char>, PlistView)>, key: Seq<char>)
    ensures
        member(v, key) is None <==> forall|i: int|
            0 <= i < v.len() ==> (#[trigger] v[i]).0 != key,
        forall|i: int|
            0 <= i < v.len() && (#[trigger] v[i]).0 == key && (forall|j: int|
                0 <= j < i ==> (#[trigger] v[j]).0 != key) ==> member(v, key) == Some(v[i].1),
    decreases v.len(),
{
    if v.len() > 0 && v[0].0 != key {
        let rest = v.skip(1);
        law_first_member_is_found(rest, key);
        if member(rest, key) is None {
            assert forall|i: int| 0 <= i < v.len() implies (#[trigger] v[i]).0 != key by {
                if i > 0 {
                    assert(rest[i - 1].0 != key);
                }
            }
        } else if forall|i: int| 0 <= i < v.len() ==> (#[trigger] v[i]).0 != key {
            assert forall|i: int| 0 <= i < rest.len() implies (#[trigger] rest[i]).0 != key by {
                assert(v[i + 1].0 != key);
            }
        }
        assert forall|i: int|
            0 <= i < v.len() && (#[trigger] v[i]).0 == key && (forall|j: int|
                0 <= j < i ==> (#[trigger] v[j]).0 != key) implies member(v, key) == Some(
            v[i].1,
        ) by {
            assert(rest[i - 1] == v[i]);
            assert forall|j: int| 0 <= j < i - 1 implies (#[trigger] rest[j]).0 != key by {
                assert(v[j + 1].0 != key);
            }
        }
    }
}

/// Only a text is read as a text, a flag as a flag, and bytes as bytes.
pub proof fn law_members_are_read_by_kind(v: Seq<(Seq<char>, PlistView)>, key: Seq<char>)
    ensures
        match member(v, key) {
            Some(PlistView::Text(s)) => text_member(v, key) == Some(s) && flag_member(v, key) is None
                && bytes_member(v, key) is None,
            Some(PlistView::Flag(b)) => flag_member(v, key) == Some(b) && text_member(v, key) is None
                && bytes_member(v, key) is None,
            Some(PlistView::Bytes(b)) => bytes_member(v, key) == Some(b) && text_member(
                v,
                key,
            ) is None && flag_member(v, key) is None,
            _ => text_member(v, key) is None && flag_member(v, key) is None && bytes_member(
                v,
                key,
            ) is None,
        },
{
}

/// The members of a file are those of the list that its bytes spell; a date that cannot
/// be held, or a file that was not read, is told instead.
pub proof fn law_file_members(bytes: Seq<u8>, words: Seq<char>)
    ensures
        dates_fit(bytes) ==> file_members(Ok(bytes)) == plist_members(bytes),
        !dates_fit(bytes) ==> file_members(Ok(bytes)) == Err::<Seq<(Seq<char>, PlistView)>, _>(
            "a date is out of range"@,
        ),
        file_members(Err(words)) == Err::<Seq<(Seq<char>, PlistView)>, _>(words),
{
}

} // verus!
