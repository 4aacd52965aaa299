use vstd::prelude::*;

verus! {

/// A JSON value as a prefab file holds it. A number keeps its value as an `i64` where it is
/// an integer in that range, and its text, from which the application reads it as a float.
#[derive(Debug)]
pub enum Json {
    Null,
    Bool(bool),
    Number(Option<i64>, String),
    Str(String),
    Array(Vec<Json>),
    Object(Vec<(String, Json)>),
}

/// The value of the first entry named `name` among `entries`.
pub open spec fn first_entry(entries: Seq<(String, Json)>, name: Seq<char>) -> Option<Json>
    decreases entries.len(),
{
    if entries.len() == 0 {
        None
    } else if entries[0].0@ == name {
        Some(entries[0].1)
    } else {
        first_entry(entries.drop_first(), name)
    }
}

/// The field `name` of an object; none for another value.
pub open spec fn spec_get(j: Json, name: Seq<char>) -> Option<Json> {
    match j {
        Json::Object(entries) => first_entry(entries@, name),
        _ => None,
    }
}

/// The field `name` of `j` where it is a boolean, else `default`.
pub open spec fn bool_or(j: Json, name: Seq<char>, default: bool) -> bool {
    match spec_get(j, name) {
        Some(Json::Bool(b)) => b,
        _ => default,
    }
}

/// The field `name` of `j` where it is an integer in the range of `i64`, cut to its low 32
/// bits, else `default`.
pub open spec fn i32_or(j: Json, name: Seq<char>, default: i32) -> i32 {
    match spec_get(j, name) {
        Some(Json::Number(Some(n), _)) => n as i32,
        _ => default,
    }
}

/// The field `name` of `j` where it is a string, else `default`.
pub open spec fn string_or(j: Json, name: Seq<char>, default: Seq<char>) -> Seq<char> {
    match spec_get(j, name) {
        Some(Json::Str(s)) => s@,
        _ => default,
    }
}

/// The items of the field `name` of `j` where it is an array, else none.
pub open spec fn items_or_none(j: Json, name: Seq<char>) -> Seq<Json> {
    match spec_get(j, name) {
        Some(Json::Array(items)) => items@,
        _ => Seq::empty(),
    }
}

impl Json {
    /// The field `name` of an object; none for another value, or where the object has no
    /// such field.
    pub fn get(&self, name: &str) -> (r: Option<&Json>)
        ensures
            match r {
                Some(v) => spec_get(*self, name@) == Some(*v),
                None => spec_get(*self, name@) is None,
            },
    {
        let entries = match self {
            Json::Object(entries) => entries,
            _ => return None,
        };
        assert(spec_get(*self, name@) == first_entry(entries@, name@));
        let key = name.to_owned();
        assert(entries@.skip(0) =~= entries@);
        let mut i: usize = 0;
        while i < entries.len()
            invariant
                i <= entries@.len(),
                key@ == name@,
                spec_get(*self, name@) == first_entry(entries@, name@),
                first_entry(entries@, name@) == first_entry(entries@.skip(i as int), name@),
            decreases entries@.len() - i,
        {
            assert(entries@.skip(i as int).drop_first() =~= entries@.skip(i + 1));
            assert(entries@.skip(i as int)[0] == entries@[i as int]);
            let entry = &entries[i];
            if entry.0 == key {
                assert(entries@.skip(i as int)[0].0@ == name@);
                assert(first_entry(entries@.skip(i as int), name@) == Some(entries@[i as int].1));
                return Some(&entry.1);
            }
            i += 1;
        }
        assert(entries@.skip(i as int).len() == 0);
        None
    }
}

/// The field `name` of `json` where it is a boolean, else `default`.
pub fn get_bool_or_default(json: &Json, name: &str, default: bool) -> (b: bool)
    ensures
        b == bool_or(*json, name@, default),
{
    match json.get(name) {
        Some(Json::Bool(b)) => *b,
        _ => default,
    }
}

/// The field `name` of `json` where it is an integer in the range of `i64`, cut to its low
/// 32 bits, else `default`.
pub fn get_i32_or_default(json: &Json, name: &str, default: i32) -> (v: i32)
    ensures
        v == i32_or(*json, name@, default),
{
    match json.get(name) {
        Some(Json::Number(Some(n), _)) => *n as i32,
        _ => default,
    }
}

/// The field `name` of `json` where it is a string, else `default`.
pub fn get_string_or_default(json: &Json, name: &str, default: &str) -> (s: String)
    ensures
        s@ == string_or(*json, name@, default@),
{
    match json.get(name) {
        Some(Json::Str(s)) => s.clone(),
        _ => default.to_owned(),
    }
}

/// Law: the field `name` of an object is the value of its first entry named `name`, and it
/// has none where no entry is so named; other values have no fields.
pub proof fn law_get_first_entry(j: Json, name: Seq<char>)
    ensures
        match j {
            Json::Object(entries) => match spec_get(j, name) {
                Some(v) => exists|i: int|
                    0 <= i < entries@.len() && #[trigger] entries@[i].0@ == name && entries@[i].1 == v && forall|k: int|
                        0 <= k < i ==> (#[trigger] entries@[k]).0@ != name,
                None => forall|i: int| 0 <= i < entries@.len() ==> (#[trigger] entries@[i]).0@ != name,
            },
            _ => spec_get(j, name) is None,
        },
{
    if let Json::Object(entries) = j {
        lemma_first_entry(entries@, name);
    }
}

proof fn lemma_first_entry(entries: Seq<(String, Json)>, name: Seq<char>)
    ensures
        match first_entry(entries, name) {
            Some(v) => exists|i: int|
                0 <= i < entries.len() && #[trigger] entries[i].0@ == name && entries[i].1 == v && forall|k: int|
                    0 <= k < i ==> (#[trigger] entries[k]).0@ != name,
            None => forall|i: int| 0 <= i < entries.len() ==> (#[trigger] entries[i]).0@ != name,
        },
    decreases entries.len(),
{
    if entries.len() > 0 {
        let t = entries.drop_first();
        lemma_first_entry(t, name);
        if entries[0].0@ == name {
            assert(entries[0].0@ == name);
        } else {
            match first_entry(t, name) {
                Some(v) => {
                    let i = choose|i: int|
                        0 <= i < t.len() && #[trigger] t[i].0@ == name && t[i].1 == v && forall|k: int|
                            0 <= k < i ==> (#[trigger] t[k]).0@ != name;
                    assert(entries[i + 1] == t[i]);
                    assert forall|k: int| 0 <= k < i + 1 implies (#[trigger] entries[k]).0@ != name by {
                        if k > 0 {
                            assert(entries[k] == t[k - 1]);
                        }
                    }
                },
                None => {
                    assert forall|i: int| 0 <= i < entries.len() implies (#[trigger] entries[i]).0@ != name by {
                        if i > 0 {
                            assert(entries[i] == t[i - 1]);
                        }
                    }
                },
            }
        }
    }
}

#[verifier::external_type_specification]
#[verifier::external_body]
pub struct ExJsonValue(serde_json::Value);

/// What `serde_json::from_str` makes of a text, as a `Json` (see `parse_json_text`), or the
/// text of its error. It depends on the text alone.
pub uninterp spec fn json_text(text: Seq<char>) -> Result<Json, Seq<char>>;

/// `serde_json::from_str` into a `serde_json::Value`, turned variant by variant into the
/// same value as a `Json`; on failure, the error's message (`to_string`). Claimed, not
/// proved: the result is `json_text` of the text, and so the same for the same text.
#[verifier::external_body]
pub(crate) fn parse_json_text(text: &str) -> (r: Result<Json, String>)
    ensures
        match r {
            Ok(j) => json_text(text@) == Ok::<Json, Seq<char>>(j),
            Err(e) => json_text(text@) == Err::<Json, Seq<char>>(e@),
        },
{
    match serde_json::from_str::<serde_json::Value>(text) {
        Ok(value) => Ok(json_of_value(&value)),
        Err(e) => Err(e.to_string()),
    }
}

/// The conversion half of `parse_json_text`, split out because it recurses: each variant of
/// a `serde_json::Value` becomes the same variant of `Json`; a number keeps `as_i64` and its
/// text (`to_string`). It claims nothing of its own.
#[verifier::external_body]
fn json_of_value(value: &serde_json::Value) -> Json {
    match value {
        serde_json::Value::Null => Json::Null,
        serde_json::Value::Bool(b) => Json::Bool(*b),
        serde_json::Value::Number(n) => Json::Number(n.as_i64(), n.to_string()),
        serde_json::Value::String(s) => Json::Str(s.clone()),
        serde_json::Value::Array(items) => Json::Array(items.iter().map(json_of_value).collect()),
        serde_json::Value::Object(entries) => Json::Object(entries.iter().map(|(k, v)| (k.clone(), json_of_value(v))).collect()),
    }
}

} // verus!
