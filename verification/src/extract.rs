//! Locating a JSON value inside free text, and validating it against a
//! schema shaped like the expected value.
//!
//! A schema is itself a JSON value used as a shape template: an object lists
//! the required fields with their shapes (extra fields are allowed), an
//! array's first element is the shape of every element (an empty schema
//! array accepts any array), and a scalar accepts any value of its own kind.
use vstd::prelude::*;
use crate::errors::Failure;
use crate::json::Json;
use crate::json::JsonV;
use crate::json::parse_value;
use crate::json::parse_value_x;
use crate::json::vmembers;
use crate::json::lemma_vmembers;
use crate::json::velems;
use crate::json::lemma_velems;

verus! {

/// The first JSON value embedded in `s` at or after `i`: the value parsed at
/// the first object or array opening from which a full parse succeeds.
pub open spec fn first_json(s: Seq<u8>, i: int) -> Option<JsonV>
    decreases s.len() - i,
{
    if !(0 <= i < s.len()) {
        None
    } else if (s[i] == 0x7b || s[i] == 0x5b) && parse_value(s, i) is Some {
        Some(parse_value(s, i)->Some_0.0)
    } else {
        first_json(s, i + 1)
    }
}

/// Scans `text` for the first embedded JSON object or array.
#[verifier::loop_isolation(false)]
pub fn extract_json(text: &Vec<u8>) -> (r: Option<Json>)
    ensures
        (r matches Some(v) ==> first_json(text@, 0) == Some(v@)),
        (r is None ==> first_json(text@, 0) is None),
{
    let mut i: usize = 0;
    while i < text.len()
        invariant
            i <= text@.len(),
            first_json(text@, 0) == first_json(text@, i as int),
        decreases text@.len() - i,
    {
        let b = text[i];
        if b == 0x7b || b == 0x5b {
            match parse_value_x(text, i) {
                Some((v, _end)) => {
                    return Some(v);
                },
                None => {},
            }
        }
        i = i + 1;
    }
    None
}

/// The value bound to the first occurrence of `key` among `fields`, looking
/// from index `k` on.
pub open spec fn lookup_from(fields: Seq<(Seq<u8>, JsonV)>, key: Seq<u8>, k: int) -> Option<JsonV>
    decreases fields.len() - k,
{
    if !(0 <= k < fields.len()) {
        None
    } else if fields[k].0 == key {
        Some(fields[k].1)
    } else {
        lookup_from(fields, key, k + 1)
    }
}

/// The value bound to the first occurrence of `key` among `fields`.
pub open spec fn lookup(fields: Seq<(Seq<u8>, JsonV)>, key: Seq<u8>) -> Option<JsonV> {
    lookup_from(fields, key, 0)
}

/// Decides byte-sequence equality.
#[verifier::loop_isolation(false)]
pub fn bytes_eq(a: &Vec<u8>, b: &Vec<u8>) -> (r: bool)
    ensures
        r == (a@ == b@),
{
    if a.len() != b.len() {
        return false;
    }
    let mut i: usize = 0;
    while i < a.len()
        invariant
            i <= a@.len(),
            a@.len() == b@.len(),
            forall|k: int| 0 <= k < i ==> a@[k] == b@[k],
        decreases a@.len() - i,
    {
        if a[i] != b[i] {
            return false;
        }
        i = i + 1;
    }
    proof {
        assert(a@ =~= b@);
    }
    true
}

/// Finds the first member of `fields` whose key is `key`.
#[verifier::loop_isolation(false)]
pub fn obj_get<'a>(fields: &'a Vec<(Vec<u8>, Json)>, key: &Vec<u8>) -> (r: Option<&'a Json>)
    ensures
        (r matches Some(v) ==> lookup(vmembers(fields@, 0), key@) == Some(v@)),
        (r is None ==> lookup(vmembers(fields@, 0), key@) is None),
{
    proof {
        lemma_vmembers(fields@, 0);
    }
    let mut i: usize = 0;
    while i < fields.len()
        invariant
            i <= fields@.len(),
            lookup_from(vmembers(fields@, 0), key@, 0) == lookup_from(vmembers(fields@, 0), key@,
                i as int),
        decreases fields@.len() - i,
    {
        if bytes_eq(&fields[i].0, key) {
            return Some(&fields[i].1);
        }
        i = i + 1;
    }
    None
}

/// Structural validation of `v` against the shape template `sc`.
pub open spec fn schema_ok(v: JsonV, sc: JsonV) -> bool
    decreases sc, 0int, 0int,
{
    match sc {
        JsonV::Null => v is Null,
        JsonV::Bool(_) => v is Bool,
        JsonV::Num(_) => v is Num,
        JsonV::Str(_) => v is Str,
        JsonV::Arr(es) => v matches JsonV::Arr(items) && (es.len() == 0 || arr_ok(items, es[0],
            0)),
        JsonV::Obj(fs) => v matches JsonV::Obj(items) && obj_ok(items, fs, 0),
    }
}

/// Every element of `items` from `k` on validates against `sc`.
pub open spec fn arr_ok(items: Seq<JsonV>, sc: JsonV, k: int) -> bool
    decreases sc, 1int, items.len() - k,
{
    if 0 <= k < items.len() {
        schema_ok(items[k], sc) && arr_ok(items, sc, k + 1)
    } else {
        true
    }
}

/// Every schema field of `fs` from `k` on is present among `items` and its
/// value validates against the field's shape.
pub open spec fn obj_ok(items: Seq<(Seq<u8>, JsonV)>, fs: Seq<(Seq<u8>, JsonV)>, k: int) -> bool
    decreases fs, 1int, fs.len() - k,
{
    if 0 <= k < fs.len() {
        &&& lookup(items, fs[k].0) is Some
        &&& schema_ok(lookup(items, fs[k].0)->Some_0, fs[k].1)
        &&& obj_ok(items, fs, k + 1)
    } else {
        true
    }
}

/// Decides `schema_ok`.
#[verifier::loop_isolation(false)]
pub fn matches_schema(v: &Json, sc: &Json) -> (r: bool)
    ensures
        r == schema_ok(v@, sc@),
    decreases sc, 0int,
{
    match sc {
        Json::Null => matches!(v, Json::Null),
        Json::Bool(_) => matches!(v, Json::Bool(_)),
        Json::Num(_) => matches!(v, Json::Num(_)),
        Json::Str(_) => matches!(v, Json::Str(_)),
        Json::Arr(es) => {
            match v {
                Json::Arr(items) => {
                    if es.len() == 0 {
                        return true;
                    }
                    proof {
                        lemma_velems(items@, 0);
                        lemma_velems(es@, 0);
                    }
                    let mut k: usize = 0;
                    while k < items.len()
                        invariant
                            k <= items@.len(),
                            arr_ok(velems(items@, 0), velems(es@, 0)[0], 0) == arr_ok(velems(
                                items@, 0), velems(es@, 0)[0], k as int),
                        decreases items@.len() - k,
                    {
                        proof {
                            assert(decreases_to!(*sc => sc->Arr_0));
                            assert(decreases_to!(*es => es@));
                            assert(decreases_to!(es@ => es@[0]));
                        }
                        if !matches_schema(&items[k], &es[0]) {
                            return false;
                        }
                        k = k + 1;
                    }
                    true
                },
                _ => false,
            }
        },
        Json::Obj(fs) => {
            match v {
                Json::Obj(items) => {
                    proof {
                        lemma_vmembers(items@, 0);
                        lemma_vmembers(fs@, 0);
                    }
                    let mut k: usize = 0;
                    while k < fs.len()
                        invariant
                            k <= fs@.len(),
                            obj_ok(vmembers(items@, 0), vmembers(fs@, 0), 0) == obj_ok(vmembers(
                                items@, 0), vmembers(fs@, 0), k as int),
                        decreases fs@.len() - k,
                    {
                        match obj_get(items, &fs[k].0) {
                            None => {
                                return false;
                            },
                            Some(found) => {
                                proof {
                                    assert(decreases_to!(*sc => sc->Obj_0));
                                    assert(decreases_to!(*fs => fs@));
                                    assert(decreases_to!(fs@ => fs@[k as int]));
                                    assert(decreases_to!(fs@[k as int] => fs@[k as int].1));
                                }
                                if !matches_schema(found, &fs[k].1) {
                                    return false;
                                }
                            },
                        }
                        k = k + 1;
                    }
                    true
                },
                _ => false,
            }
        },
    }
}

/// Locates the first JSON value in `text` and validates it against `schema`.
/// Yields `Extraction` when no JSON is found, `SchemaMismatch` when a value
/// is found but does not conform.
pub fn extract_validated(text: &Vec<u8>, schema: &Json) -> (r: Result<Json, Failure>)
    ensures
        (r matches Ok(v) ==> first_json(text@, 0) == Some(v@) && schema_ok(v@, schema@)),
        (r == Err::<Json, Failure>(Failure::Extraction) <==> first_json(text@, 0) is None),
        (r == Err::<Json, Failure>(Failure::SchemaMismatch) <==> (first_json(text@, 0) matches Some(
            v) && !schema_ok(v, schema@))),
        (r matches Err(f) ==> f == Failure::Extraction || f == Failure::SchemaMismatch),
{
    match extract_json(text) {
        None => Err(Failure::Extraction),
        Some(v) => {
            if matches_schema(&v, schema) {
                Ok(v)
            } else {
                Err(Failure::SchemaMismatch)
            }
        },
    }
}

} // verus!

verus! {

/// Scanning across bytes that cannot open a JSON value does not change what
/// is found.
proof fn lemma_first_json_skip(s: Seq<u8>, i: int, j: int)
    requires
        0 <= i <= j <= s.len(),
        forall|k: int| i <= k < j ==> #[trigger] s[k] != 0x7b && s[k] != 0x5b,
    ensures
        first_json(s, i) == first_json(s, j),
    decreases j - i,
{
    if i < j {
        lemma_first_json_skip(s, i + 1, j);
    }
}

/// Round-trip law: an object or array serialized into the middle of prose
/// that opens no object or array of its own is extracted back as exactly
/// the embedded value.
pub proof fn lemma_extract_embedded(pre: Seq<u8>, v: JsonV, suf: Seq<u8>)
    requires
        crate::json::wf(v),
        v is Obj || v is Arr,
        forall|k: int| 0 <= k < pre.len() ==> #[trigger] pre[k] != 0x7b && pre[k] != 0x5b,
    ensures
        first_json(pre + crate::json::ser(v) + suf, 0) == Some(v),
{
    let sv = crate::json::ser(v);
    let s = pre + sv + suf;
    let p = pre.len() as int;
    assert(forall|k: int| 0 <= k < sv.len() ==> s[p + k] == sv[k]);
    crate::json::lemma_parse_ser(s, p, v);
    assert(s[p] == sv[0] && (sv[0] == 0x7b || sv[0] == 0x5b)) by {
        assert(s[p + 0] == sv[0]);
    }
    assert(forall|k: int| 0 <= k < p ==> #[trigger] s[k] != 0x7b && s[k] != 0x5b) by {
        assert(forall|k: int| 0 <= k < p ==> s[k] == pre[k]);
    }
    lemma_first_json_skip(s, 0, p);
    assert(first_json(s, p) == Some(v));
}

} // verus!
