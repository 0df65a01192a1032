//! Source-client response handling: the stats source answers a fetch with a
//! JSON document; this module extracts the fresh snapshot (display name and
//! per-category values) from that document. The JSON is parsed by serde_json;
//! what a parsed document holds is modelled by [`JsonVal`], and every reading
//! of it is verified against that model.

use vstd::prelude::*;

use serde_json::Value;

use crate::merge::{CategoryValue, Snapshot};

verus! {

/// Model of a JSON document: what a parsed `serde_json::Value` holds.
///
/// A number is recorded as the 64-bit encoding of the numeric value the
/// parser reports for it.
pub enum JsonVal {
    Null,
    Bool(bool),
    Num(u64),
    Str(Seq<char>),
    Arr(Seq<JsonVal>),
    Obj(Map<Seq<char>, JsonVal>),
}

/// Declares serde_json's value type, so that signatures and contracts can
/// carry parsed documents.
#[verifier::external_type_specification]
#[verifier::external_body]
pub struct ExValue(Value);

/// What a parsed `serde_json::Value` holds.
pub uninterp spec fn value_model(v: Value) -> JsonVal;

/// What `serde_json::from_str::<Value>` makes of a text: `None` when the text
/// is not a JSON document, otherwise the model of the parsed value. A function
/// of the text alone.
pub uninterp spec fn json_of(s: Seq<char>) -> Option<JsonVal>;

/// Relies on `serde_json::from_str::<Value>`: parses a JSON document; the
/// outcome depends on the text alone.
#[verifier::external_body]
fn parse_json(s: &str) -> (r: Option<Value>)
    ensures
        r is Some <==> json_of(s@) is Some,
        r matches Some(v) ==> json_of(s@) == Some(value_model(v)),
{
    serde_json::from_str::<Value>(s).ok()
}

/// Relies on `serde_json::Value::get` with a string index: looks the key up
/// when the value is an object, and returns `None` otherwise.
#[verifier::external_body]
fn json_get<'a>(v: &'a Value, key: &str) -> (r: Option<&'a Value>)
    ensures
        r is Some <==> (value_model(*v) matches JsonVal::Obj(m) && m.dom().contains(key@)),
        r matches Some(u) ==> (value_model(*v) matches JsonVal::Obj(m) && m.dom().contains(key@)
            && value_model(*u) == m[key@]),
{
    v.get(key)
}

/// Relies on `serde_json::Value::as_str`: `Some` exactly when the value is a
/// JSON string, returning its text.
#[verifier::external_body]
fn json_as_str<'a>(v: &'a Value) -> (r: Option<&'a str>)
    ensures
        r is Some <==> value_model(*v) is Str,
        r matches Some(s) ==> value_model(*v) == JsonVal::Str(s@),
{
    v.as_str()
}

/// Relies on `serde_json::Value::as_f64`: `Some` exactly when the value is a
/// JSON number; `to_bits` of the reported value is what the model records for
/// that number.
#[verifier::external_body]
fn json_number_bits(v: &Value) -> (r: Option<u64>)
    ensures
        r is Some <==> value_model(*v) is Num,
        r matches Some(b) ==> value_model(*v) == JsonVal::Num(b),
{
    v.as_f64().map(|x| x.to_bits())
}

/// Relies on `serde_json::Value::as_object` and the entry iterator of
/// `serde_json::Map`: when the value is an object, its entries, each key of
/// the backing keyed map exactly once.
#[verifier::external_body]
fn json_object_entries<'a>(v: &'a Value) -> (r: Option<Vec<(&'a String, &'a Value)>>)
    ensures
        r is Some <==> value_model(*v) is Obj,
        r matches Some(es) ==> (value_model(*v) matches JsonVal::Obj(m) && {
            &&& forall|i: int, j: int| 0 <= i < j < es@.len() ==> es@[i].0@ != es@[j].0@
            &&& forall|i: int|
                0 <= i < es@.len() ==> m.dom().contains((#[trigger] es@[i]).0@) && value_model(
                    *es@[i].1,
                ) == m[es@[i].0@]
            &&& forall|k: Seq<char>|
                #[trigger] m.dom().contains(k) ==> exists|i: int|
                    0 <= i < es@.len() && (#[trigger] es@[i]).0@ == k
        }),
{
    v.as_object().map(|m| m.iter().collect())
}

/// The named member of a JSON object; `None` for absent members and
/// non-objects.
pub open spec fn obj_member(j: JsonVal, key: Seq<char>) -> Option<JsonVal> {
    match j {
        JsonVal::Obj(m) => if m.dom().contains(key) {
            Some(m[key])
        } else {
            None
        },
        _ => None,
    }
}

/// The text of a JSON string, if the value is one.
pub open spec fn str_of(j: Option<JsonVal>) -> Option<Seq<char>> {
    match j {
        Some(JsonVal::Str(s)) => Some(s),
        _ => None,
    }
}

/// The encoded numeric value of a JSON number, if the value is one.
pub open spec fn num_of(j: Option<JsonVal>) -> Option<u64> {
    match j {
        Some(JsonVal::Num(b)) => Some(b),
        _ => None,
    }
}

/// The document's "ratings" member, when it is an object.
pub open spec fn ratings_of(j: JsonVal) -> Option<Map<Seq<char>, JsonVal>> {
    match obj_member(j, "ratings"@) {
        Some(JsonVal::Obj(m)) => Some(m),
        _ => None,
    }
}

/// The numeric "elo" member of one category's rating object, if any.
pub open spec fn elo_of(rating: JsonVal) -> Option<u64> {
    num_of(obj_member(rating, "elo"@))
}

/// The snapshot entries list exactly the rating categories that carry a
/// numeric "elo", each once, with that value; the order is not specified.
pub open spec fn entries_match(
    entries: Seq<(Seq<char>, u64)>,
    ratings: Map<Seq<char>, JsonVal>,
) -> bool {
    &&& forall|i: int, j: int|
        0 <= i < j < entries.len() ==> (#[trigger] entries[i]).0 != (#[trigger] entries[j]).0
    &&& forall|i: int|
        0 <= i < entries.len() ==> ratings.dom().contains((#[trigger] entries[i]).0) && elo_of(
            ratings[entries[i].0],
        ) == Some(entries[i].1)
    &&& forall|k: Seq<char>|
        #[trigger] ratings.dom().contains(k) && elo_of(ratings[k]) is Some ==> exists|i: int|
            0 <= i < entries.len() && (#[trigger] entries[i]).0 == k
}

/// Why a source response yielded no snapshot.
#[derive(Clone, Copy, PartialEq, Eq, Structural, Debug)]
pub enum ParseError {
    /// The body is not a JSON document.
    NotJson,
    /// The document has no "username" string.
    NoUsername,
    /// The document has no "ratings" object.
    NoRatings,
}

/// Extract the fresh snapshot from a source response body.
///
/// Succeeds exactly when the body is a JSON object with a "username" string
/// and a "ratings" object; the snapshot then lists every rating category that
/// carries a numeric "elo" value, each exactly once. Categories whose rating
/// carries no numeric "elo" are skipped.
#[verifier::rlimit(100)]
pub fn parse_snapshot(body: &str) -> (r: Result<Snapshot, ParseError>)
    ensures
        (r matches Err(ParseError::NotJson) <==> json_of(body@) is None),
        (r matches Err(ParseError::NoUsername) <==> (json_of(body@) matches Some(j) && str_of(
            obj_member(j, "username"@),
        ) is None)),
        (r matches Err(ParseError::NoRatings) <==> (json_of(body@) matches Some(j) && str_of(
            obj_member(j, "username"@),
        ) is Some && ratings_of(j) is None)),
        (r is Ok <==> (json_of(body@) matches Some(j) && str_of(obj_member(j, "username"@)) is Some
            && ratings_of(j) is Some)),
        r matches Ok(s) ==> (json_of(body@) matches Some(j) && str_of(obj_member(j, "username"@))
            matches Some(name) && ratings_of(j) matches Some(rm) && s.display_name@ == name && s.wf()
            && entries_match(s.entries_view(), rm)),
{
    let v = match parse_json(body) {
        Some(v) => v,
        None => {
            return Err(ParseError::NotJson);
        },
    };
    let display_name: String = match json_get(&v, "username") {
        Some(u) => match json_as_str(u) {
            Some(s) => s.to_owned(),
            None => {
                return Err(ParseError::NoUsername);
            },
        },
        None => {
            return Err(ParseError::NoUsername);
        },
    };
    let ratings_val = match json_get(&v, "ratings") {
        Some(rv) => rv,
        None => {
            return Err(ParseError::NoRatings);
        },
    };
    let entry_list = match json_object_entries(ratings_val) {
        Some(es) => es,
        None => {
            return Err(ParseError::NoRatings);
        },
    };
    let ghost j = value_model(v);
    let ghost rm = ratings_of(j)->0;
    let ghost es = entry_list@;
    let mut out: Vec<CategoryValue> = Vec::new();
    let n = entry_list.len();
    let mut i: usize = 0;
    while i < n
        invariant
            i <= n,
            n == es.len(),
            es == entry_list@,
            value_model(v) == j,
            ratings_of(j) == Some(rm),
            forall|a: int, b: int| 0 <= a < b < es.len() ==> es[a].0@ != es[b].0@,
            forall|a: int|
                0 <= a < es.len() ==> rm.dom().contains((#[trigger] es[a]).0@) && value_model(
                    *es[a].1,
                ) == rm[es[a].0@],
            forall|a: int, b: int|
                0 <= a < b < out@.len() ==> out@[a].name@ != out@[b].name@,
            forall|a: int|
                0 <= a < out@.len() ==> exists|c: int|
                    #![trigger es[c]]
                    0 <= c < i && es[c].0@ == (#[trigger] out@[a]).name@,
            forall|a: int|
                0 <= a < out@.len() ==> rm.dom().contains((#[trigger] out@[a]).name@) && elo_of(
                    rm[out@[a].name@],
                ) == Some(out@[a].value),
            forall|c: int|
                0 <= c < i && elo_of(rm[(#[trigger] es[c]).0@]) is Some ==> exists|a: int|
                    0 <= a < out@.len() && out@[a].name@ == es[c].0@,
        decreases n - i,
    {
        let name_ref = entry_list[i].0;
        let rating_val = entry_list[i].1;
        let mut found: Option<u64> = None;
        match json_get(rating_val, "elo") {
            Some(ev) => {
                match json_number_bits(ev) {
                    Some(bits) => {
                        found = Some(bits);
                    },
                    None => {},
                }
            },
            None => {},
        }
        proof {
            assert(value_model(*es[i as int].1) == rm[es[i as int].0@]);
            assert(found == elo_of(rm[es[i as int].0@]));
        }
        match found {
            Some(bits) => {
                let ghost old_out = out@;
                out.push(CategoryValue { name: name_ref.clone(), value: bits });
                proof {
                    assert(out@.last().name@ == es[i as int].0@);
                    assert(forall|a: int| 0 <= a < old_out.len() ==> out@[a] == old_out[a]);
                    assert forall|a: int, b: int|
                        0 <= a < b < out@.len() implies out@[a].name@ != out@[b].name@ by {
                        if b == out@.len() - 1 {
                            let c = choose|c: int|
                                0 <= c < i && es[c].0@ == (#[trigger] old_out[a]).name@;
                            assert(es[c].0@ != es[i as int].0@);
                        }
                    }
                    assert forall|a: int| 0 <= a < out@.len() implies exists|c: int|
                        #![trigger es[c]]
                        0 <= c < i + 1 && es[c].0@ == (#[trigger] out@[a]).name@ by {
                        if a < old_out.len() {
                            let c = choose|c: int|
                                0 <= c < i && es[c].0@ == (#[trigger] old_out[a]).name@;
                            assert(0 <= c < i + 1 && es[c].0@ == out@[a].name@);
                        } else {
                            assert(es[i as int].0@ == out@[a].name@);
                        }
                    }
                    assert forall|c: int|
                        0 <= c < i + 1 && elo_of(rm[(#[trigger] es[c]).0@]) is Some implies exists|a: int|
                        0 <= a < out@.len() && out@[a].name@ == es[c].0@ by {
                        if c < i {
                            let a = choose|a: int|
                                0 <= a < old_out.len() && (#[trigger] old_out[a]).name@
                                    == es[c].0@;
                            assert(out@[a].name@ == es[c].0@);
                        } else {
                            assert(out@[out@.len() - 1].name@ == es[c].0@);
                        }
                    }
                }
            },
            None => {},
        }
        i = i + 1;
    }
    let snapshot = Snapshot { display_name, entries: out };
    proof {
        assert(entries_match(snapshot.entries_view(), rm)) by {
            let ev = snapshot.entries_view();
            assert(forall|a: int| 0 <= a < ev.len() ==> (#[trigger] ev[a]).0 == out@[a].name@
                && ev[a].1 == out@[a].value);
            assert forall|k: Seq<char>| #[trigger]
                rm.dom().contains(k) && elo_of(rm[k]) is Some implies exists|a: int|
                0 <= a < ev.len() && (#[trigger] ev[a]).0 == k by {
                let c = choose|c: int| 0 <= c < es.len() && (#[trigger] es[c]).0@ == k;
                assert(elo_of(rm[es[c].0@]) is Some);
                let a = choose|a: int| 0 <= a < out@.len() && out@[a].name@ == es[c].0@;
                assert(ev[a].0 == k);
            }
        }
    }
    Ok(snapshot)
}

} // verus!
