//! A JSON document model of the library's own, filled by `serde_json`'s
//! parser, and the lookups that the rest of the library makes on it.

use vstd::prelude::*;

verus! {

/// A JSON value. Numbers keep the text that `serde_json` prints for them,
/// with a flag that tells floating-point numbers from integers; objects keep
/// their members in the order the parser hands them out (sorted by key).
#[derive(Debug)]
pub enum Json {
    Null,
    Bool(bool),
    Number(String, bool),
    Str(String),
    Array(Vec<Json>),
    Object(Vec<(String, Json)>),
}

#[verifier::external_type_specification]
#[verifier::external_body]
pub struct ExJsonValue(serde_json::Value);

/// What `serde_json::from_str::<serde_json::Value>` makes of a text:
/// `None` where it reports an error, else the parsed document.
pub uninterp spec fn json_parse(text: Seq<char>) -> Option<Json>;

/// What `format!("{:?}", s)` writes for a string slice: the text in double
/// quotes with `str::escape_debug` escapes.
pub uninterp spec fn debug_quoted(s: Seq<char>) -> Seq<char>;

/// Parses `text` as one JSON document with `serde_json::from_str` into a
/// `serde_json::Value` and hands back its model. The contract claims that the
/// result depends on the text alone.
#[verifier::external_body]
pub fn parse_json(text: &str) -> (r: Option<Json>)
    ensures
        r == json_parse(text@),
{
    serde_json::from_str::<serde_json::Value>(text).ok().map(json_from_value)
}

/// Converts a `serde_json::Value` into the model, one variant for one; a
/// number keeps its `Display` text and whether `Number::is_f64` holds. This
/// conversion states nothing; `parse_json` states what its result is.
#[verifier::external_body]
fn json_from_value(v: serde_json::Value) -> Json {
    match v {
        serde_json::Value::Null => Json::Null,
        serde_json::Value::Bool(b) => Json::Bool(b),
        serde_json::Value::Number(n) => Json::Number(n.to_string(), n.is_f64()),
        serde_json::Value::String(s) => Json::Str(s),
        serde_json::Value::Array(a) => Json::Array(a.into_iter().map(json_from_value).collect()),
        serde_json::Value::Object(m) => Json::Object(
            m.into_iter().map(|(k, x)| (k, json_from_value(x))).collect(),
        ),
    }
}

/// `s` in double quotes with debug escapes, as `format!("{:?}", s)` writes it.
#[verifier::external_body]
pub fn debug_quote(s: &str) -> (r: String)
    ensures
        r@ == debug_quoted(s@),
{
    format!("{:?}", s)
}

/// The value of the first member of `entries` whose key is `key`.
pub open spec fn lookup(entries: Seq<(String, Json)>, key: Seq<char>) -> Option<Json>
    decreases entries.len(),
{
    if entries.len() == 0 {
        None
    } else if entries[0].0@ == key {
        Some(entries[0].1)
    } else {
        lookup(entries.drop_first(), key)
    }
}

/// Member `key` of an object, `None` for any other value, as
/// `serde_json::Value::get` with a string index answers.
pub open spec fn json_get(j: Json, key: Seq<char>) -> Option<Json> {
    match j {
        Json::Object(entries) => lookup(entries@, key),
        _ => None,
    }
}

/// The text of a string value.
pub open spec fn json_str(j: Json) -> Option<Seq<char>> {
    match j {
        Json::Str(s) => Some(s@),
        _ => None,
    }
}

/// Skipping members whose key differs does not change the lookup.
proof fn lemma_lookup_skip(entries: Seq<(String, Json)>, key: Seq<char>, i: int)
    requires
        0 <= i <= entries.len(),
        forall|k: int| 0 <= k < i ==> (#[trigger] entries[k]).0@ != key,
    ensures
        lookup(entries, key) == lookup(entries.skip(i), key),
    decreases i,
{
    if i == 0 {
        assert(entries.skip(0) =~= entries);
    } else {
        assert(entries.skip(1) =~= entries.drop_first());
        assert(entries.skip(1).skip(i - 1) =~= entries.skip(i));
        lemma_lookup_skip(entries.drop_first(), key, i - 1);
    }
}

/// The index of the first member of `entries` whose key is `key`.
fn find_member(entries: &Vec<(String, Json)>, key: &String) -> (r: Option<usize>)
    ensures
        r is None ==> lookup(entries@, key@) is None,
        r matches Some(i) ==> i < entries.len() && lookup(entries@, key@) == Some(
            entries@[i as int].1,
        ),
{
    let mut i: usize = 0;
    while i < entries.len()
        invariant
            i <= entries.len(),
            forall|k: int| 0 <= k < i ==> (#[trigger] entries@[k]).0@ != key@,
        decreases entries.len() - i,
    {
        if entries[i].0 == *key {
            proof {
                lemma_lookup_skip(entries@, key@, i as int);
                assert(entries@.skip(i as int)[0] == entries@[i as int]);
            }
            return Some(i);
        }
        i += 1;
    }
    proof {
        lemma_lookup_skip(entries@, key@, i as int);
        assert(entries@.skip(i as int).len() == 0);
    }
    None
}

/// Moves member `key` out of an object's members.
pub fn take_member(entries: Vec<(String, Json)>, key: &String) -> (r: Option<Json>)
    ensures
        r == lookup(entries@, key@),
{
    let mut entries = entries;
    match find_member(&entries, key) {
        None => None,
        Some(i) => {
            let (_, v) = entries.swap_remove(i);
            Some(v)
        },
    }
}

impl Json {
    /// Member `key` of an object; `None` for any other value or a missing key.
    pub fn get(&self, key: &str) -> (r: Option<&Json>)
        ensures
            r matches Some(v) ==> json_get(*self, key@) == Some(*v),
            r is None ==> json_get(*self, key@) is None,
    {
        match self {
            Json::Object(entries) => {
                let k = key.to_string();
                match find_member(entries, &k) {
                    None => None,
                    Some(i) => Some(&entries[i].1),
                }
            },
            _ => None,
        }
    }

    /// The text of a string value.
    pub fn as_str(&self) -> (r: Option<&str>)
        ensures
            r matches Some(s) ==> json_str(*self) == Some(s@),
            r is None ==> json_str(*self) is None,
    {
        match self {
            Json::Str(s) => Some(s.as_str()),
            _ => None,
        }
    }

    /// Whether this is JSON `null`.
    pub fn is_null(&self) -> (r: bool)
        ensures
            r == (*self is Null),
    {
        match self {
            Json::Null => true,
            _ => false,
        }
    }
}

} // verus!
