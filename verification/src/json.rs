//! A plain tree model of JSON values.
//!
//! Signalling messages arrive as JSON text. The text is turned into a
//! [`Json`] tree by `serde_json`, behind a trusted boundary; everything
//! that reads or builds trees is verified code in this crate.

use vstd::prelude::*;

verus! {

/// A JSON value as a plain tree.
///
/// Numbers keep their decimal text: no message field of the signalling
/// schema carries a number, so the text is only ever carried through.
#[derive(Debug, PartialEq, Eq)]
pub enum Json {
    Null,
    Bool(bool),
    Num(String),
    Str(String),
    Arr(Vec<Json>),
    Obj(Vec<(String, Json)>),
}

/// The tree that parsing a given text yields, if the text is well-formed
/// JSON. Parsing is done by `serde_json`, so the tree is not defined
/// here: it is named, and the parser's wrapper below is trusted to
/// return it.
pub uninterp spec fn json_of_text(s: Seq<char>) -> Option<Json>;

/// Relies on `serde_json::from_str::<serde_json::Value>`: the parse of a
/// text depends on its characters alone, succeeds exactly on well-formed
/// JSON, and the resulting tree is mapped node for node onto [`Json`].
#[verifier::external_body]
pub fn parse_json_text(s: &str) -> (r: Option<Json>)
    ensures
        r == json_of_text(s@),
{
    match serde_json::from_str::<serde_json::Value>(s) {
        Ok(v) => Some(json_of_value(&v)),
        Err(_) => None,
    }
}

#[verifier::external_type_specification]
#[verifier::external_body]
pub struct ExValue(serde_json::Value);

/// Relies on the shape of `serde_json::Value`: each node is copied, one
/// variant to one variant, with numbers kept as their decimal text.
#[verifier::external_body]
fn json_of_value(v: &serde_json::Value) -> Json {
    match v {
        serde_json::Value::Null => Json::Null,
        serde_json::Value::Bool(b) => Json::Bool(*b),
        serde_json::Value::Number(n) => Json::Num(n.to_string()),
        serde_json::Value::String(s) => Json::Str(s.clone()),
        serde_json::Value::Array(a) => Json::Arr(a.iter().map(json_of_value).collect()),
        serde_json::Value::Object(m) => Json::Obj(
            m.iter().map(|(k, x)| (k.clone(), json_of_value(x))).collect(),
        ),
    }
}

/// The value under the first field named `key`, if any.
pub open spec fn spec_obj_get(fields: Seq<(String, Json)>, key: Seq<char>) -> Option<Json>
    decreases fields.len(),
{
    if fields.len() == 0 {
        Option::None
    } else if fields[0].0@ == key {
        Option::Some(fields[0].1)
    } else {
        spec_obj_get(fields.drop_first(), key)
    }
}

/// Where a field list's first `key` stands at position `n`, the lookup
/// finds it.
pub proof fn lemma_obj_get_found(fields: Seq<(String, Json)>, n: int, key: Seq<char>)
    requires
        0 <= n < fields.len(),
        fields[n].0@ == key,
        forall|i: int| 0 <= i < n ==> fields[i].0@ != key,
    ensures
        spec_obj_get(fields, key) == Option::Some(fields[n].1),
    decreases n,
{
    if n == 0 {
    } else {
        assert(fields[0].0@ != key);
        assert(fields.drop_first()[n - 1] == fields[n]);
        assert(forall|i: int| 0 <= i < n - 1 ==> fields.drop_first()[i].0@ != key) by {
            assert(forall|i: int| 0 <= i < n - 1 ==> fields.drop_first()[i] == fields[i + 1]);
        }
        lemma_obj_get_found(fields.drop_first(), n - 1, key);
    }
}

/// Look a field up by name in an object's field list.
pub fn obj_get<'a>(fields: &'a Vec<(String, Json)>, key: &String) -> (r: Option<&'a Json>)
    ensures
        match r {
            Option::Some(j) => spec_obj_get(fields@, key@) == Option::Some(*j),
            Option::None => spec_obj_get(fields@, key@) is None,
        },
{
    let n: usize = fields.len();
    let mut i: usize = 0;
    proof {
        assert(fields@.skip(0) =~= fields@);
    }
    while i < n
        invariant
            n == fields@.len(),
            0 <= i <= n,
            spec_obj_get(fields@, key@) == spec_obj_get(fields@.skip(i as int), key@),
        decreases n - i,
    {
        proof {
            assert(fields@.skip(i as int)[0] == fields@[i as int]);
        }
        if fields[i].0 == *key {
            return Some(&fields[i].1);
        }
        proof {
            assert(fields@.skip(i as int).drop_first() =~= fields@.skip(i + 1));
        }
        i += 1;
    }
    None
}

} // verus!
