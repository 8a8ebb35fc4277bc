//! The JSON documents that carry circuit inputs, as plain library values, and
//! the calls into `serde_json` that read and write them.

use serde_json::Value;
use vstd::prelude::*;

verus! {

#[verifier::external_type_specification]
#[verifier::external_body]
pub struct ExJsonValue(Value);

/// A JSON value. A number keeps what the input rules read of it: its value
/// when it is an unsigned integer that fits in 64 bits, and `None` otherwise.
#[derive(Debug)]
pub enum Json {
    Null,
    Bool(bool),
    Number(Option<u64>),
    Str(String),
    Array(Vec<Json>),
    Object(Vec<(String, Json)>),
}

/// What `serde_json::from_str` makes of a text, as a [`Json`] (`None` where it
/// reports an error).
pub uninterp spec fn json_parse(text: Seq<char>) -> Option<Json>;

/// The text that `serde_json::to_string` writes for an object whose members
/// map names to arrays of strings (`None` where it reports an error).
pub uninterp spec fn json_object_text(fields: Seq<(Seq<char>, Seq<Seq<char>>)>) -> Option<
    Seq<char>,
>;

/// The value of the first member named `key`.
pub open spec fn json_lookup(members: Seq<(String, Json)>, key: Seq<char>) -> Option<Json>
    decreases members.len(),
{
    if members.len() == 0 {
        None
    } else if members[0].0@ == key {
        Some(members[0].1)
    } else {
        json_lookup(members.drop_first(), key)
    }
}

/// Looking a name up finds the first member of that name and its value, and
/// finds nothing exactly when no member has that name.
pub proof fn lemma_json_lookup_finds_first(members: Seq<(String, Json)>, key: Seq<char>)
    ensures
        json_lookup(members, key) is None <==> forall|i: int|
            0 <= i < members.len() ==> (#[trigger] members[i]).0@ != key,
        json_lookup(members, key) matches Some(v) ==> exists|i: int|
            0 <= i < members.len() && (#[trigger] members[i]).0@ == key && members[i].1 == v
                && forall|j: int| 0 <= j < i ==> (#[trigger] members[j]).0@ != key,
    decreases members.len(),
{
    if members.len() > 0 {
        let rest = members.drop_first();
        lemma_json_lookup_finds_first(rest, key);
        assert forall|i: int| 0 < i < members.len() implies #[trigger] members[i] == rest[i - 1] by {}
        if members[0].0@ == key {
            assert(members[0].0@ == key);
        } else {
            if json_lookup(rest, key) is None {
                assert forall|i: int| 0 <= i < members.len() implies (#[trigger] members[i]).0@ != key by {
                    if i > 0 {
                        assert(rest[i - 1] == members[i]);
                    }
                }
            } else {
                let v = json_lookup(rest, key)->Some_0;
                let k = choose|k: int|
                    0 <= k < rest.len() && (#[trigger] rest[k]).0@ == key && rest[k].1 == v
                        && forall|j: int| 0 <= j < k ==> (#[trigger] rest[j]).0@ != key;
                assert(members[k + 1] == rest[k]);
                assert forall|j: int| 0 <= j < k + 1 implies (#[trigger] members[j]).0@ != key by {
                    if j > 0 {
                        assert(members[j] == rest[j - 1]);
                    }
                }
                assert(exists|i: int| 0 <= i < members.len() && (#[trigger] members[i]).0@ == key);
            }
        }
    }
}

/// `v` is an array of strings whose texts are `texts`, in order.
pub open spec fn is_string_array(v: Json, texts: Seq<Seq<char>>) -> bool {
    match v {
        Json::Array(items) => {
            &&& items@.len() == texts.len()
            &&& forall|i: int|
                0 <= i < texts.len() ==> (#[trigger] items@[i] matches Json::Str(t) && t@ == texts[i])
        },
        _ => false,
    }
}

/// `text` parses to an object with exactly one member per field, holding that
/// field's strings.
pub open spec fn reads_back_as(text: Seq<char>, fields: Seq<(Seq<char>, Seq<Seq<char>>)>) -> bool {
    &&& json_parse(text) matches Some(Json::Object(members))
    &&& members@.len() == fields.len()
    &&& forall|i: int|
        0 <= i < fields.len() ==> (#[trigger] json_lookup(members@, fields[i].0) matches Some(v)
            && is_string_array(v, fields[i].1))
}

/// No two members share a name.
pub open spec fn distinct_names(fields: Seq<(Seq<char>, Seq<Seq<char>>)>) -> bool {
    forall|i: int, j: int| 0 <= i < j < fields.len() ==> fields[i].0 != fields[j].0
}

/// `serde_json::from_str` into a `serde_json::Value`, converted member for
/// member into a [`Json`].
#[verifier::external_body]
pub(crate) fn parse_json(text: &str) -> (r: Option<Json>)
    ensures
        r == json_parse(text@),
{
    serde_json::from_str::<Value>(text).ok().map(json_from_value)
}

/// Converts a `serde_json::Value` into a [`Json`], variant for variant; a
/// number keeps what `serde_json::Number::as_u64` returns.
#[verifier::external_body]
fn json_from_value(value: Value) -> Json {
    match value {
        Value::Null => Json::Null,
        Value::Bool(b) => Json::Bool(b),
        Value::Number(n) => Json::Number(n.as_u64()),
        Value::String(s) => Json::Str(s),
        Value::Array(items) => Json::Array(items.into_iter().map(json_from_value).collect()),
        Value::Object(members) => Json::Object(
            members.into_iter().map(|(k, v)| (k, json_from_value(v))).collect(),
        ),
    }
}

/// `serde_json::to_string` on a `serde_json::Map` built from `fields`, each
/// value an array of JSON strings. What `serde_json::from_str` reads back from
/// the text is an object with one member per field, of the same name and the
/// same strings. The serializer writes into a `Vec<u8>`, which never fails,
/// and every key and value of such a map is a string, so it always succeeds.
#[verifier::external_body]
pub(crate) fn serialize_fields(fields: &Vec<(String, Vec<String>)>) -> (r: Option<String>)
    ensures
        r is Some,
        match r {
            Some(t) => json_object_text(fields.deep_view()) == Some(t@),
            None => json_object_text(fields.deep_view()) is None,
        },
        distinct_names(fields.deep_view()) ==> (r matches Some(t) ==> reads_back_as(
            t@,
            fields.deep_view(),
        )),
{
    let map: serde_json::Map<String, Value> = fields.iter().map(
        |(k, vs)| (k.clone(), Value::Array(vs.iter().cloned().map(Value::String).collect())),
    ).collect();
    serde_json::to_string(&map).ok()
}

/// Finds the value of the first member of `members` named `key`.
pub fn json_get<'a>(members: &'a Vec<(String, Json)>, key: &str) -> (r: Option<&'a Json>)
    ensures
        match r {
            Some(v) => json_lookup(members@, key@) == Some(*v),
            None => json_lookup(members@, key@) is None,
        },
{
    let name = String::from_str(key);
    let mut i: usize = 0;
    assert(members@.skip(0) =~= members@);
    while i < members.len()
        invariant
            i <= members@.len(),
            name@ == key@,
            json_lookup(members@, key@) == json_lookup(members@.skip(i as int), key@),
        decreases members@.len() - i,
    {
        assert(members@.skip(i as int).drop_first() =~= members@.skip(i + 1));
        if members[i].0 == name {
            return Some(&members[i].1);
        }
        i += 1;
    }
    None
}

} // verus!
