//! Reading the output plugin's JSON: objects, arrays and strings, each value
//! kept as its raw text so that a change element is forwarded verbatim.

use vstd::prelude::*;
use crate::kinds::same_text;

verus! {

/// The members of the JSON object that `text` writes, each value as its raw
/// text, or `None` if `text` is no JSON object.
pub uninterp spec fn json_object_members(text: Seq<char>) -> Option<Seq<(Seq<char>, Seq<char>)>>;

/// The items of the JSON array that `text` writes, each as its raw text, or
/// `None` if `text` is no JSON array.
pub uninterp spec fn json_array_items(text: Seq<char>) -> Option<Seq<Seq<char>>>;

/// The string that `text` writes as a JSON string, or `None` if `text` is no
/// JSON string.
pub uninterp spec fn json_string_value(text: Seq<char>) -> Option<Seq<char>>;

/// One member of a JSON object: its key and the raw text of its value.
#[derive(Debug, Clone)]
pub struct JsonMember {
    pub key: String,
    pub raw: String,
}

/// The members as values.
pub open spec fn members_view(v: Seq<JsonMember>) -> Seq<(Seq<char>, Seq<char>)> {
    v.map_values(|m: JsonMember| (m.key@, m.raw@))
}

/// Relies on `serde_json::from_str` into a map from keys to
/// `Box<serde_json::value::RawValue>`: it succeeds exactly on a JSON object and
/// hands each member's value back as its text.
#[verifier::external_body]
pub(crate) fn object_members(text: &str) -> (r: Option<Vec<JsonMember>>)
    ensures
        match r {
            None => json_object_members(text@) is None,
            Some(v) => json_object_members(text@) == Some(members_view(v@)),
        },
{
    serde_json::from_str::<std::collections::BTreeMap<String, Box<serde_json::value::RawValue>>>(
        text,
    ).ok().map(|m| m.into_iter().map(|(key, v)| JsonMember { key, raw: v.get().to_owned() }).collect())
}

/// Relies on `serde_json::from_str` into `Vec<Box<serde_json::value::RawValue>>`:
/// it succeeds exactly on a JSON array and hands each item back as its text.
#[verifier::external_body]
pub(crate) fn array_items(text: &str) -> (r: Option<Vec<String>>)
    ensures
        match r {
            None => json_array_items(text@) is None,
            Some(v) => json_array_items(text@) == Some(crate::text::views(v@)),
        },
{
    serde_json::from_str::<Vec<Box<serde_json::value::RawValue>>>(text).ok().map(
        |items| items.into_iter().map(|v| v.get().to_owned()).collect(),
    )
}

/// Relies on `serde_json::from_str` into `String`: it succeeds exactly on a
/// JSON string and gives the string that it writes.
#[verifier::external_body]
fn string_value(text: &str) -> (r: Option<String>)
    ensures
        match r {
            None => json_string_value(text@) is None,
            Some(s) => json_string_value(text@) == Some(s@),
        },
{
    serde_json::from_str::<String>(text).ok()
}

/// The raw value of the first member with this key.
pub open spec fn member_of(ms: Seq<(Seq<char>, Seq<char>)>, key: Seq<char>) -> Option<Seq<char>>
    decreases ms.len(),
{
    if ms.len() == 0 {
        None
    } else if ms[0].0 == key {
        Some(ms[0].1)
    } else {
        member_of(ms.skip(1), key)
    }
}

/// The raw value of the member `key` of an object, if any.
pub fn find_member(ms: &Vec<JsonMember>, key: &str) -> (r: Option<String>)
    ensures
        match r {
            None => member_of(members_view(ms@), key@) is None,
            Some(v) => member_of(members_view(ms@), key@) == Some(v@),
        },
{
    let ghost mv = members_view(ms@);
    let mut i: usize = 0;
    assert(mv.skip(0) =~= mv);
    while i < ms.len()
        invariant
            i <= ms@.len(),
            mv == members_view(ms@),
            member_of(mv, key@) == member_of(mv.skip(i as int), key@),
        decreases ms@.len() - i,
    {
        assert(mv.skip(i as int)[0] == (ms@[i as int].key@, ms@[i as int].raw@));
        if same_text(ms[i].key.as_str(), key) {
            return Some(ms[i].raw.clone());
        }
        assert(mv.skip(i as int).skip(1) =~= mv.skip(i + 1));
        i = i + 1;
    }
    None
}

/// What the JSON strings of an array are: `Some` for a string, `None` for any
/// other value.
pub open spec fn strings_of(items: Seq<Seq<char>>) -> Seq<Option<Seq<char>>> {
    items.map_values(|t: Seq<char>| json_string_value(t))
}

/// The strings of a list of optional strings, as values.
pub open spec fn opt_views(v: Seq<Option<String>>) -> Seq<Option<Seq<char>>> {
    v.map_values(|o: Option<String>| match o {
        Some(s) => Some(s@),
        None => None,
    })
}

/// The member `key` of an object read as a string.
pub open spec fn string_member(ms: Seq<(Seq<char>, Seq<char>)>, key: Seq<char>) -> Option<Seq<char>> {
    match member_of(ms, key) {
        Some(raw) => json_string_value(raw),
        None => None,
    }
}

/// The member `key` of an object read as an array whose items are read as
/// strings.
pub open spec fn string_list_member(ms: Seq<(Seq<char>, Seq<char>)>, key: Seq<char>) -> Option<Seq<Option<Seq<char>>>> {
    match member_of(ms, key) {
        Some(raw) => match json_array_items(raw) {
            Some(items) => Some(strings_of(items)),
            None => None,
        },
        None => None,
    }
}

/// Reads the member `key` of an object as a string.
pub fn read_string_member(ms: &Vec<JsonMember>, key: &str) -> (r: Option<String>)
    ensures
        match r {
            None => string_member(members_view(ms@), key@) is None,
            Some(s) => string_member(members_view(ms@), key@) == Some(s@),
        },
{
    match find_member(ms, key) {
        None => None,
        Some(raw) => string_value(raw.as_str()),
    }
}

/// Reads the member `key` of an object as an array of values, each read as
/// a string or as no string.
pub fn read_string_list_member(ms: &Vec<JsonMember>, key: &str) -> (r: Option<Vec<Option<String>>>)
    ensures
        match r {
            None => string_list_member(members_view(ms@), key@) is None,
            Some(v) => string_list_member(members_view(ms@), key@) == Some(opt_views(v@)),
        },
{
    let raw = match find_member(ms, key) {
        None => return None,
        Some(raw) => raw,
    };
    let items = match array_items(raw.as_str()) {
        None => return None,
        Some(items) => items,
    };
    let mut out: Vec<Option<String>> = Vec::new();
    let mut i: usize = 0;
    while i < items.len()
        invariant
            i <= items@.len(),
            opt_views(out@) =~= strings_of(crate::text::views(items@)).take(i as int),
        decreases items@.len() - i,
    {
        let s = string_value(items[i].as_str());
        let ghost prior = out@;
        out.push(s);
        assert(out@ =~= prior.push(s));
        assert(opt_views(out@) =~= opt_views(prior).push(json_string_value(items@[i as int]@)));
        assert(strings_of(crate::text::views(items@)).take(i + 1) =~= strings_of(crate::text::views(items@)).take(i as int).push(json_string_value(items@[i as int]@)));
        i = i + 1;
    }
    assert(strings_of(crate::text::views(items@)).take(items@.len() as int) =~= strings_of(
        crate::text::views(items@),
    ));
    Some(out)
}

} // verus!
