use vstd::prelude::*;

use crate::text::str_eq;

verus! {

/// A JSON document, reduced to what the world loader reads: booleans,
/// unsigned integers, strings, arrays and objects. Every other node — null,
/// a number that does not fit `u64`, and anything nested past what the loader
/// walks — appears as `Other`, which no lookup accepts.
#[derive(Debug, PartialEq, Eq)]
pub enum Json {
    Bool(bool),
    Num(u64),
    Str(String),
    Arr(Vec<Json>),
    Obj(Vec<(String, Json)>),
    Other,
}

/// The first value bound to `key` among the pairs, if any.
pub open spec fn pairs_get(ps: Seq<(String, Json)>, key: Seq<char>) -> Option<Json>
    decreases ps.len(),
{
    if ps.len() == 0 {
        None
    } else if ps[0].0@ == key {
        Some(ps[0].1)
    } else {
        pairs_get(ps.drop_first(), key)
    }
}

/// Field lookup: the value bound to `key` when `j` is an object that binds
/// it, `None` otherwise.
pub open spec fn obj_get(j: Json, key: Seq<char>) -> Option<Json> {
    match j {
        Json::Obj(ps) => pairs_get(ps@, key),
        _ => None,
    }
}

impl Json {
    /// Looks up a field of an object by key.
    pub fn get<'a>(&'a self, key: &str) -> (r: Option<&'a Json>)
        ensures
            match r {
                Some(v) => obj_get(*self, key@) == Some(*v),
                None => obj_get(*self, key@) is None,
            },
    {
        match self {
            Json::Obj(ps) => {
                proof {
                    assert(obj_get(*self, key@) == pairs_get(ps@, key@));
                }
                let n = ps.len();
                let mut i: usize = 0;
                proof {
                    assert(ps@.skip(0) =~= ps@);
                }
                while i < n
                    invariant
                        i <= n,
                        n == ps@.len(),
                        obj_get(*self, key@) == pairs_get(ps@, key@),
                        pairs_get(ps@, key@) == pairs_get(ps@.skip(i as int), key@),
                        forall|j: int| 0 <= j < i ==> ps@[j].0@ != key@,
                    decreases n - i,
                {
                    proof {
                        assert(ps@.skip(i as int).len() > 0);
                        assert(ps@.skip(i as int)[0] == ps@[i as int]);
                        assert(ps@.skip(i as int).drop_first() =~= ps@.skip(i as int + 1));
                    }
                    if str_eq(ps[i].0.as_str(), key) {
                        proof {
                            assert(pairs_get(ps@.skip(i as int), key@) == Some(ps@[i as int].1));
                        }
                        return Some(&ps[i].1);
                    }
                    i += 1;
                }
                proof {
                    assert(ps@.skip(i as int).len() == 0);
                }
                None
            },
            _ => None,
        }
    }
}

/// What parsing a piece of text as JSON yields: `None` where the text is not
/// well-formed JSON, otherwise the document in the reduced form above. The
/// mapping is a fixed function of the text; it is named, not spelled out.
pub uninterp spec fn json_doc(s: Seq<char>) -> Option<Json>;

/// Relies on `serde_json::from_str`: parses the text, or fails on malformed
/// input; the outcome depends on the text alone.
#[verifier::external_body]
pub(crate) fn parse_json(text: &str) -> (r: Option<Json>)
    ensures
        r == json_doc(text@),
{
    match serde_json::from_str::<serde_json::Value>(text) {
        Ok(v) => Some(json_of_value(&v)),
        Err(_) => None,
    }
}

/// The outside value type that `parse_json` converts from.
#[verifier::external_type_specification]
#[verifier::external_body]
pub struct ExValue(serde_json::Value);

/// Relies on `serde_json::Value`: maps each node of the parsed tree to the
/// library's reduced form, one arm per variant; numbers keep their value
/// exactly when it fits `u64` and fall to `Other` otherwise.
#[verifier::external_body]
fn json_of_value(v: &serde_json::Value) -> Json {
    match v {
        serde_json::Value::Null => Json::Other,
        serde_json::Value::Bool(b) => Json::Bool(*b),
        serde_json::Value::Number(n) => match n.as_u64() {
            Some(u) => Json::Num(u),
            None => Json::Other,
        },
        serde_json::Value::String(s) => Json::Str(s.clone()),
        serde_json::Value::Array(items) => Json::Arr(items.iter().map(json_of_value).collect()),
        serde_json::Value::Object(fields) => Json::Obj(
            fields.iter().map(|(k, val)| (k.clone(), json_of_value(val))).collect(),
        ),
    }
}

} // verus!
