//! JSON, as far as the library reads and writes it: the members of an object
//! that are texts or unsigned numbers.
use vstd::prelude::*;

use crate::catalog::text_less;
use crate::text::{decimal, same_text};

verus! {

/// A member of a JSON object.
#[derive(Debug)]
pub enum JsonValue {
    Text(String),
    Unsigned(u64),
    /// A value of a kind that is never read.
    Unread,
}

/// A [`JsonValue`] with its text as a sequence of characters.
pub enum JsonView {
    Text(Seq<char>),
    Unsigned(u64),
    Unread,
}

impl View for JsonValue {
    type V = JsonView;

    open spec fn view(&self) -> JsonView {
        match self {
            JsonValue::Text(s) => JsonView::Text(s@),
            JsonValue::Unsigned(n) => JsonView::Unsigned(*n),
            JsonValue::Unread => JsonView::Unread,
        }
    }
}

/// The members of an object.
pub open spec fn object_views(v: Seq<(String, JsonValue)>) -> Seq<(Seq<char>, JsonView)> {
    v.map_values(|m: (String, JsonValue)| (m.0@, m.1@))
}

/// The members of the object that a text is; nothing where it is no JSON, or
/// no object.
pub uninterp spec fn json_object(text: Seq<char>) -> Option<Seq<(Seq<char>, JsonView)>>;

/// Calls `serde_json::from_str` and hands out the entries of the object it
/// gives. They depend on the text alone.
#[verifier::external_body]
pub(crate) fn parse_object(text: &str) -> (r: Option<Vec<(String, JsonValue)>>)
    ensures
        match r {
            Some(members) => json_object(text@) == Some(object_views(members@)),
            None => json_object(text@) is None,
        },
{
    let serde_json::Value::Object(map) = serde_json::from_str(text).ok()? else {
        return None;
    };
    Some(map.into_iter().map(|(key, v)| (key, match v {
        serde_json::Value::String(s) => JsonValue::Text(s),
        serde_json::Value::Number(n) => n.as_u64().map_or(JsonValue::Unread, JsonValue::Unsigned),
        _ => JsonValue::Unread,
    })).collect())
}

/// The member called `key`.
pub open spec fn json_member(v: Seq<(Seq<char>, JsonView)>, key: Seq<char>) -> Option<JsonView>
    decreases v.len(),
{
    if v.len() == 0 {
        None
    } else if v[0].0 == key {
        Some(v[0].1)
    } else {
        json_member(v.skip(1), key)
    }
}

/// The member called `key`.
pub fn find_member<'a>(v: &'a Vec<(String, JsonValue)>, key: &str) -> (r: Option<&'a JsonValue>)
    ensures
        match r {
            Some(x) => json_member(object_views(v@), key@) == Some(x@),
            None => json_member(object_views(v@), key@) is None,
        },
{
    let ghost all = object_views(v@);
    let mut i: usize = 0;
    assert(all.skip(0) =~= all);
    while i < v.len()
        invariant
            i <= v@.len(),
            all == object_views(v@),
            json_member(all, key@) == json_member(all.skip(i as int), key@),
        decreases v@.len() - i,
    {
        assert(all.skip(i as int)[0] == (v@[i as int].0@, v@[i as int].1@));
        if same_text(v[i].0.as_str(), key) {
            return Some(&v[i].1);
        }
        assert(all.skip(i as int).skip(1) =~= all.skip(i + 1));
        i = i + 1;
    }
    None
}

/// Whether a key needs no escaping: small letters and underscores only.
pub open spec fn plain(key: Seq<char>) -> bool {
    forall|i: int| 0 <= i < key.len() ==> 'a' <= #[trigger] key[i] <= 'z' || key[i] == '_'
}

/// The views of several optional numbers with their keys.
pub open spec fn number_views(v: Seq<(String, Option<u32>)>) -> Seq<(Seq<char>, Option<u32>)> {
    v.map_values(|m: (String, Option<u32>)| (m.0@, m.1))
}

/// A key and its number as JSON writes them.
pub open spec fn written_member(m: (Seq<char>, Option<u32>)) -> Seq<char> {
    seq!['"'] + m.0 + seq!['"', ':'] + match m.1 {
        Some(n) => decimal(n as nat),
        None => seq!['n', 'u', 'l', 'l'],
    }
}

/// Keys and their numbers as JSON writes them, with commas between.
pub open spec fn written_members(v: Seq<(Seq<char>, Option<u32>)>) -> Seq<char>
    decreases v.len(),
{
    if v.len() == 0 {
        seq![]
    } else if v.len() == 1 {
        written_member(v[0])
    } else {
        written_members(v.drop_last()) + seq![','] + written_member(v.last())
    }
}

/// Calls `to_string` of a `serde_json::Value` that is an object: plain keys in
/// ascending order are written as they stand, each with its number or `null`.
#[verifier::external_body]
pub(crate) fn write_object(members: Vec<(String, Option<u32>)>) -> (s: String)
    requires
        forall|i: int| 0 <= i < members@.len() ==> plain((#[trigger] members@[i]).0@),
        forall|i: int, j: int|
            0 <= i < j < members@.len() ==> text_less(
                (#[trigger] members@[i]).0@,
                (#[trigger] members@[j]).0@,
            ),
    ensures
        s@ == seq!['{'] + written_members(number_views(members@)) + seq!['}'],
{
    let entries = members.into_iter().map(|(key, n)| (key, serde_json::Value::from(n)));
    serde_json::Value::Object(entries.collect()).to_string()
}

/// The member found is the first with its key, and one is found just when there is
/// one.
pub proof fn law_first_member_is_found(v: Seq<(Seq<char>, JsonView)>, key: Seq<char>)
    ensures
        json_member(v, key) is None <==> forall|i: int|
            0 <= i < v.len() ==> (#[trigger] v[i]).0 != key,
        forall|i: int|
            0 <= i < v.len() && (#[trigger] v[i]).0 == key && (forall|j: int|
                0 <= j < i ==> (#[trigger] v[j]).0 != key) ==> json_member(v, key) == Some(v[i].1),
    decreases v.len(),
{
    if v.len() > 0 && v[0].0 != key {
        let rest = v.skip(1);
        law_first_member_is_found(rest, key);
        if json_member(rest, key) is None {
            assert forall|i: int| 0 <= i < v.len() implies (#[trigger] v[i]).0 != key by {
                if i > 0 {
                    assert(rest[i - 1].0 != key);
                }
            }
        } else if forall|i: int| 0 <= i < v.len() ==> (#[trigger] v[i]).0 != key {
            assert forall|i: int| 0 <= i < rest.len() implies (#[trigger] rest[i]).0 != key by {
                assert(v[i + 1].0 != key);
            }
        }
        assert forall|i: int|
            0 <= i < v.len() && (#[trigger] v[i]).0 == key && (forall|j: int|
                0 <= j < i ==> (#[trigger] v[j]).0 != key) implies json_member(v, key) == Some(
            v[i].1,
        ) by {
            assert(rest[i - 1] == v[i]);
            assert forall|j: int| 0 <= j < i - 1 implies (#[trigger] rest[j]).0 != key by {
                assert(v[j + 1].0 != key);
            }
        }
    }
}

/// Members are written in their order, with a comma between two, each with its key in
/// quotation marks and its number, or `null` where it has none.
pub proof fn law_members_are_written(
    v: Seq<(Seq<char>, Option<u32>)>,
    key: Seq<char>,
    n: u32,
)
    ensures
        written_members(seq![]).len() == 0,
        written_members(seq![(key, Some(n))]) == seq!['"'] + key + seq!['"', ':'] + decimal(
            n as nat,
        ),
        v.len() > 0 ==> written_members(v.push((key, Some(n)))) == written_members(v) + seq![',']
            + (seq!['"'] + key + seq!['"', ':'] + decimal(n as nat)),
        v.len() > 0 ==> written_members(v.push((key, None))) == written_members(v) + seq![','] + (
        seq!['"'] + key + seq!['"', ':'] + seq!['n', 'u', 'l', 'l']),
{
    assert(v.push((key, Some(n))).drop_last() =~= v);
    assert(v.push((key, None)).drop_last() =~= v);
    assert(seq![(key, Some(n))][0] == (key, Some(n)));
}

} // verus!
