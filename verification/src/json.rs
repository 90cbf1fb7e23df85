//! A JSON tree held as plain values, with field lookup, and the trusted
//! bridge that turns parsed JSON text into such a tree.
use vstd::prelude::*;

use crate::strutil::str_eq;

verus! {

/// A JSON value as the decoders read it. A number keeps its `u64` form
/// when it has one; other numbers (negative or fractional) carry no
/// value, which is all the decoders ever ask of them.
pub enum JsonValue {
    Null,
    Bool(bool),
    Num(Option<u64>),
    Str(String),
    Arr(Vec<JsonValue>),
    Obj(Vec<(String, JsonValue)>),
}

/// Value of the first pair whose key matches.
pub open spec fn spec_pairs_get(pairs: Seq<(String, JsonValue)>, key: Seq<char>) -> Option<
    JsonValue,
>
    decreases pairs.len(),
{
    if pairs.len() == 0 {
        None
    } else if pairs[0].0@ == key {
        Some(pairs[0].1)
    } else {
        spec_pairs_get(pairs.drop_first(), key)
    }
}

/// Field of an object by name; values of any other shape have no fields.
pub open spec fn spec_get(v: JsonValue, key: Seq<char>) -> Option<JsonValue> {
    match v {
        JsonValue::Obj(pairs) => spec_pairs_get(pairs@, key),
        _ => None,
    }
}

/// Field of an object by name, reading the first pair whose key matches.
pub fn json_get<'a>(v: &'a JsonValue, key: &str) -> (r: Option<&'a JsonValue>)
    ensures
        match r {
            Some(x) => spec_get(*v, key@) == Some(*x),
            None => spec_get(*v, key@) is None,
        },
{
    match v {
        JsonValue::Obj(pairs) => {
            let n: usize = pairs.len();
            let mut i: usize = 0;
            proof {
                assert(pairs@.skip(0) =~= pairs@);
            }
            while i < n
                invariant
                    *v == JsonValue::Obj(*pairs),
                    n == pairs@.len(),
                    i <= n,
                    spec_pairs_get(pairs@, key@) == spec_pairs_get(pairs@.skip(i as int), key@),
                decreases n - i,
            {
                proof {
                    assert(pairs@.skip(i as int)[0] == pairs@[i as int]);
                    assert(pairs@.skip(i as int).drop_first() =~= pairs@.skip((i + 1) as int));
                }
                if str_eq(pairs[i].0.as_str(), key) {
                    proof {
                        assert(spec_pairs_get(pairs@.skip(i as int), key@) == Some(
                            pairs@[i as int].1,
                        ));
                        assert(*v == JsonValue::Obj(*pairs));
                        assert(spec_get(*v, key@) == spec_pairs_get(pairs@, key@));
                    }
                    return Some(&pairs[i].1);
                }
                i += 1;
            }
            proof {
                assert(pairs@.skip(n as int) =~= Seq::<(String, JsonValue)>::empty());
            }
            None
        },
        _ => None,
    }
}

#[verifier::external_type_specification]
#[verifier::external_body]
pub struct ExSerdeValue(serde_json::Value);

/// The value tree a text parses to when it is well-formed JSON, and
/// nothing when it is not: what the JSON parser answers, a function of
/// the text alone.
pub uninterp spec fn json_tree_of(s: Seq<char>) -> Option<JsonValue>;

/// Relies on the variants of `serde_json::Value`: one arm per variant,
/// fields moved across, and on `serde_json::Number::as_u64`, which keeps
/// the value exactly for integers that fit `u64` and is `None` otherwise.
#[verifier::external_body]
fn value_to_tree(v: serde_json::Value) -> (r: JsonValue) {
    match v {
        serde_json::Value::Null => JsonValue::Null,
        serde_json::Value::Bool(b) => JsonValue::Bool(b),
        serde_json::Value::Number(n) => JsonValue::Num(n.as_u64()),
        serde_json::Value::String(s) => JsonValue::Str(s),
        serde_json::Value::Array(a) => JsonValue::Arr(a.into_iter().map(value_to_tree).collect()),
        serde_json::Value::Object(m) => JsonValue::Obj(
            m.into_iter().map(|p| (p.0, value_to_tree(p.1))).collect(),
        ),
    }
}

/// Relies on `serde_json::from_str::<serde_json::Value>`: text that is
/// well-formed JSON parses to its value tree, anything else is an
/// error, and the outcome depends on the text alone.
#[verifier::external_body]
pub(crate) fn parse_json(s: &str) -> (r: Option<JsonValue>)
    ensures
        r == json_tree_of(s@),
{
    match serde_json::from_str::<serde_json::Value>(s) {
        Ok(v) => Some(value_to_tree(v)),
        Err(_) => None,
    }
}

} // verus!
