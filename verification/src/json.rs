//! A JSON tree the library reasons about, with serde_json doing the reading
//! and writing of the text.

use vstd::prelude::*;

verus! {

#[verifier::external_type_specification]
#[verifier::external_body]
pub struct ExJsonNumber(serde_json::Number);

#[verifier::external_type_specification]
#[verifier::external_body]
pub struct ExJsonValue(serde_json::Value);

/// A JSON value. An object holds its members as a list; serde_json, which
/// reads and writes the text, keeps one member per key and orders members
/// by key, so a value read back from text has sorted, distinct keys.
pub enum Json {
    Null,
    Bool(bool),
    Number(serde_json::Number),
    Str(String),
    Array(Vec<Json>),
    Object(Vec<(String, Json)>),
}

/// What `serde_json::from_slice::<Value>` reads from a byte string, `None`
/// when it is not a JSON document.
pub uninterp spec fn parsed_json(bytes: Seq<u8>) -> Option<Json>;

/// What `serde_json::to_vec` writes for a value.
pub uninterp spec fn json_text(value: Json) -> Seq<u8>;

/// What `serde_json::to_vec_pretty` writes for a value.
pub uninterp spec fn json_text_pretty(value: Json) -> Seq<u8>;

/// The number `serde_json::Number::from(u64)` builds.
pub uninterp spec fn number_of_u64(x: u64) -> serde_json::Number;

/// What `serde_json::Number::as_u64` answers for a number.
pub uninterp spec fn number_as_u64(n: serde_json::Number) -> Option<u64>;

/// Moves a serde_json value into a [`Json`], variant for variant. Its result
/// is what [`parse_json`] hands back, under that function's contract.
#[verifier::external_body]
fn from_value(value: serde_json::Value) -> Json {
    match value {
        serde_json::Value::Null => Json::Null,
        serde_json::Value::Bool(b) => Json::Bool(b),
        serde_json::Value::Number(n) => Json::Number(n),
        serde_json::Value::String(s) => Json::Str(s),
        serde_json::Value::Array(items) => Json::Array(items.into_iter().map(from_value).collect()),
        serde_json::Value::Object(map) => Json::Object(
            map.into_iter().map(|(k, v)| (k, from_value(v))).collect(),
        ),
    }
}

/// Copies a [`Json`] into a serde_json value, variant for variant, for
/// [`json_bytes`] and [`object_bytes_pretty`] to write.
#[verifier::external_body]
fn to_value(value: &Json) -> serde_json::Value {
    match value {
        Json::Null => serde_json::Value::Null,
        Json::Bool(b) => serde_json::Value::Bool(*b),
        Json::Number(n) => serde_json::Value::Number(n.clone()),
        Json::Str(s) => serde_json::Value::String(s.clone()),
        Json::Array(items) => serde_json::Value::Array(items.iter().map(to_value).collect()),
        Json::Object(members) => serde_json::Value::Object(
            members.iter().map(|(k, v)| (k.clone(), to_value(v))).collect(),
        ),
    }
}

/// Reads a JSON document with `serde_json::from_slice`; `None` when the
/// bytes are not one. The tree it gives back is named by [`parsed_json`].
#[verifier::external_body]
pub fn parse_json(bytes: &[u8]) -> (r: Option<Json>)
    ensures
        r == parsed_json(bytes@),
{
    serde_json::from_slice::<serde_json::Value>(bytes).ok().map(from_value)
}

/// Writes a value with `serde_json::to_vec` (which cannot fail on a tree of
/// plain values with string keys). The text is named by [`json_text`].
#[verifier::external_body]
pub fn json_bytes(value: &Json) -> (r: Vec<u8>)
    ensures
        r@ == json_text(*value),
{
    serde_json::to_vec(&to_value(value)).unwrap_or_default()
}

/// Writes an object with `serde_json::to_vec_pretty`. The text is named by
/// [`json_text_pretty`].
#[verifier::external_body]
pub fn object_bytes_pretty(members: &Vec<(String, Json)>) -> (r: Vec<u8>)
    ensures
        r@ == json_text_pretty(Json::Object(*members)),
{
    let map: serde_json::Map<String, serde_json::Value> =
        members.iter().map(|(k, v)| (k.clone(), to_value(v))).collect();
    serde_json::to_vec_pretty(&serde_json::Value::Object(map)).unwrap_or_default()
}

/// `serde_json::Number::from(u64)`; reading the number back with `as_u64`
/// gives the integer again (the number is stored as that integer).
#[verifier::external_body]
pub fn number_from_u64(x: u64) -> (n: serde_json::Number)
    ensures
        n == number_of_u64(x),
        number_as_u64(n) == Some(x),
{
    serde_json::Number::from(x)
}

/// `serde_json::Number::as_u64`: the number as a `u64` when it is a
/// non-negative integer that fits.
#[verifier::external_body]
pub fn number_to_u64(n: &serde_json::Number) -> (r: Option<u64>)
    ensures
        r == number_as_u64(*n),
{
    n.as_u64()
}

/// `i` is the first member of `members` whose key is `key`.
pub open spec fn first_key_at(members: Seq<(String, Json)>, key: Seq<char>, i: int) -> bool {
    &&& 0 <= i < members.len()
    &&& members[i].0@ == key
    &&& forall|j: int| 0 <= j < i ==> members[j].0@ != key
}

pub open spec fn has_key(members: Seq<(String, Json)>, key: Seq<char>) -> bool {
    exists|i: int| 0 <= i < members.len() && members[i].0@ == key
}

/// The value of the first member named `key`, if any.
pub open spec fn member(members: Seq<(String, Json)>, key: Seq<char>) -> Option<Json> {
    if has_key(members, key) {
        let i = choose|i: int| first_key_at(members, key, i);
        Some(members[i].1)
    } else {
        None
    }
}

pub proof fn lemma_first_key_unique(members: Seq<(String, Json)>, key: Seq<char>, i: int, k: int)
    requires
        first_key_at(members, key, i),
        first_key_at(members, key, k),
    ensures
        i == k,
{
}

/// The member at the first index of a key is that key's value.
pub proof fn lemma_member_at(members: Seq<(String, Json)>, key: Seq<char>, i: int)
    requires
        first_key_at(members, key, i),
    ensures
        member(members, key) == Some(members[i].1),
{
    assert(has_key(members, key));
    let k = choose|k: int| first_key_at(members, key, k);
    lemma_first_key_unique(members, key, i, k);
}

/// Index of the first member named `key`.
pub fn find_key(members: &Vec<(String, Json)>, key: &str) -> (r: Option<usize>)
    ensures
        match r {
            Some(i) => first_key_at(members@, key@, i as int),
            None => !has_key(members@, key@),
        },
{
    let mut i: usize = 0;
    while i < members.len()
        invariant
            i <= members@.len(),
            forall|j: int| 0 <= j < i ==> members@[j].0@ != key@,
        decreases members@.len() - i,
    {
        if crate::text::str_eq(members[i].0.as_str(), key) {
            return Some(i);
        }
        i = i + 1;
    }
    None
}

/// The first member named `key` of an object.
pub fn get_member<'a>(members: &'a Vec<(String, Json)>, key: &str) -> (r: Option<&'a Json>)
    ensures
        r matches Some(v) ==> member(members@, key@) == Some(*v),
        r is None ==> member(members@, key@) is None,
{
    match find_key(members, key) {
        Some(i) => {
            proof {
                let k = choose|k: int| first_key_at(members@, key@, k);
                lemma_first_key_unique(members@, key@, i as int, k);
            }
            Some(&members[i].1)
        },
        None => None,
    }
}

pub fn jstr(s: &str) -> (j: Json)
    ensures
        j matches Json::Str(t) && t@ == s@,
{
    Json::Str(s.to_owned())
}

pub fn jnum(x: u64) -> (j: Json)
    ensures
        j == Json::Number(number_of_u64(x)),
        number_as_u64(number_of_u64(x)) == Some(x),
{
    Json::Number(number_from_u64(x))
}

} // verus!
