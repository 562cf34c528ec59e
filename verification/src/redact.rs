//! Redaction of secrets in what a script sees: header names that are
//! secret, and the values of secret keys anywhere in a JSON document.
//!
//! Keys match whatever their ASCII case. A secret value is replaced by
//! `[redacted]`, never removed, so the document keeps its shape.

use vstd::prelude::*;
use crate::text::{lower, views, chars_of, lower_chars, chars_eq, string_of};

verus! {

/// Whether some key equals the name, ignoring ASCII case.
pub open spec fn key_listed(keys: Seq<Seq<char>>, name: Seq<char>) -> bool {
    exists|k: int| 0 <= k < keys.len() && lower(#[trigger] keys[k]) == lower(name)
}

/// Whether a header is to be hidden: its name is one of the keys, in any
/// ASCII case.
pub fn is_redacted_header(name: &str, keys: &[String]) -> (r: bool)
    ensures
        r == key_listed(views(keys@), name@),
{
    let n = lower_chars(&chars_of(name));
    let mut i: usize = 0;
    while i < keys.len()
        invariant
            i <= keys@.len(),
            n@ == lower(name@),
            forall|k: int| 0 <= k < i ==> lower(#[trigger] views(keys@)[k]) != lower(name@),
        decreases keys@.len() - i,
    {
        let k = lower_chars(&chars_of(keys[i].as_str()));
        assert(views(keys@)[i as int] == keys@[i as int]@);
        if chars_eq(&k, &n) {
            return true;
        }
        i += 1;
    }
    false
}


/// A JSON document. A number keeps the text it was written with.
#[derive(Debug, PartialEq, Eq)]
pub enum Json {
    Null,
    Bool(bool),
    Number(String),
    Str(String),
    Array(Vec<Json>),
    Object(Vec<(String, Json)>),
}

/// A JSON document as plain values.
pub enum JsonModel {
    Null,
    Bool(bool),
    Number(Seq<char>),
    Str(Seq<char>),
    Array(Seq<JsonModel>),
    Object(Seq<(Seq<char>, JsonModel)>),
}

/// A document as plain values.
pub open spec fn model(j: Json) -> JsonModel
    decreases j,
{
    match j {
        Json::Null => JsonModel::Null,
        Json::Bool(b) => JsonModel::Bool(b),
        Json::Number(n) => JsonModel::Number(n@),
        Json::Str(s) => JsonModel::Str(s@),
        Json::Array(items) => JsonModel::Array(
            Seq::new(
                items@.len(),
                |i: int|
                    {
                        if 0 <= i < items@.len() {
                            proof {
                                assert(decreases_to!(items => items@));
                                assert(decreases_to!(items@ => items@[i]));
                            }
                            model(items@[i])
                        } else {
                            JsonModel::Null
                        }
                    },
            ),
        ),
        Json::Object(fields) => JsonModel::Object(
            Seq::new(
                fields@.len(),
                |i: int|
                    {
                        if 0 <= i < fields@.len() {
                            proof {
                                assert(decreases_to!(fields => fields@));
                                assert(decreases_to!(fields@ => fields@[i]));
                                assert(decreases_to!(fields@[i] => fields@[i].1));
                            }
                            (fields@[i].0@, model(fields@[i].1))
                        } else {
                            (Seq::empty(), JsonModel::Null)
                        }
                    },
            ),
        ),
    }
}

/// The value that replaces a secret.
pub open spec fn redacted_text() -> Seq<char> {
    "[redacted]"@
}

/// A document with the value of every member whose key is one of `keys`
/// (ignoring ASCII case) replaced by `[redacted]`, at any depth; everything
/// else, keys and order included, is kept.
pub open spec fn redacted(m: JsonModel, keys: Seq<Seq<char>>) -> JsonModel
    decreases m,
{
    match m {
        JsonModel::Array(items) => JsonModel::Array(
            Seq::new(
                items.len(),
                |i: int|
                    {
                        if 0 <= i < items.len() {
                            proof {
                                assert(decreases_to!(items => items[i]));
                            }
                            redacted(items[i], keys)
                        } else {
                            JsonModel::Null
                        }
                    },
            ),
        ),
        JsonModel::Object(fields) => JsonModel::Object(
            Seq::new(
                fields.len(),
                |i: int|
                    {
                        if 0 <= i < fields.len() {
                            proof {
                                assert(decreases_to!(fields => fields[i]));
                                assert(decreases_to!(fields[i] => fields[i].1));
                            }
                            if key_listed(keys, fields[i].0) {
                                (fields[i].0, JsonModel::Str(redacted_text()))
                            } else {
                                (fields[i].0, redacted(fields[i].1, keys))
                            }
                        } else {
                            (Seq::empty(), JsonModel::Null)
                        }
                    },
            ),
        ),
        _ => m,
    }
}

fn key_is_listed(name: &str, keys: &[String]) -> (r: bool)
    ensures
        r == key_listed(views(keys@), name@),
{
    is_redacted_header(name, keys)
}

/// Replaces the value of every member whose key is one of `keys` (in any
/// ASCII case) by `[redacted]`, at any depth. Secrets are replaced, never
/// removed, so the document keeps its shape.
#[verifier::loop_isolation(false)]
pub fn redact(j: Json, keys: &[String]) -> (r: Json)
    ensures
        model(r) == redacted(model(j), views(keys@)),
    decreases j,
{
    let ghost jj = j;
    let ghost kv = views(keys@);
    match j {
        Json::Array(items) => {
            let ghost iv = items;
            let ghost orig = items@;
            let mut rest = items;
            let n = rest.len();
            let mut out: Vec<Json> = Vec::new();
            let mut i: usize = 0;
            while rest.len() > 0
                invariant
                    i <= orig.len(),
                    orig.len() == n,
                    orig == iv@,
                    jj == Json::Array(iv),
                    kv == views(keys@),
                    rest@ == orig.skip(i as int),
                    out@.len() == i,
                    forall|k: int| 0 <= k < i ==> model(#[trigger] out@[k]) == redacted(model(orig[k]), kv),
                decreases rest@.len(),
            {
                assert(rest@.len() == orig.len() - i);
                let x = rest.remove(0);
                assert(x == orig[i as int]);
                proof {
                    assert(jj->Array_0 == iv);
                    assert(decreases_to!(jj => jj->Array_0));
                    assert(decreases_to!(iv => iv@));
                    assert(decreases_to!(iv@ => iv@[i as int]));
                    assert(decreases_to!(jj => x));
                }
                let y = redact(x, keys);
                out.push(y);
                i += 1;
                assert(orig.skip(i as int) =~= orig.skip(i - 1).drop_first());
            }
            assert(i == orig.len());
            let r = Json::Array(out);
            proof {
                let mr = model(r);
                let mj = model(jj);
                if let JsonModel::Array(ms) = mj {
                    if let JsonModel::Array(rs) = mr {
                        assert(ms.len() == orig.len());
                        assert forall|k: int| 0 <= k < rs.len() implies rs[k] == redacted(ms[k], kv) by {
                            assert(ms[k] == model(orig[k]));
                            assert(rs[k] == model(out@[k]));
                        }
                        let red = redacted(mj, kv);
                        if let JsonModel::Array(xs) = red {
                            assert(xs.len() == ms.len());
                            assert forall|k: int| 0 <= k < xs.len() implies xs[k] == redacted(ms[k], kv) by {}
                            assert(rs =~= xs);
                        }
                    }
                }
            }
            r
        },
        Json::Object(fields) => {
            let ghost fv = fields;
            let ghost orig = fields@;
            let mut rest = fields;
            let n = rest.len();
            let mut out: Vec<(String, Json)> = Vec::new();
            let mut i: usize = 0;
            while rest.len() > 0
                invariant
                    i <= orig.len(),
                    orig.len() == n,
                    orig == fv@,
                    jj == Json::Object(fv),
                    kv == views(keys@),
                    rest@ == orig.skip(i as int),
                    out@.len() == i,
                    forall|k: int| 0 <= k < i ==> (#[trigger] out@[k]).0@ == orig[k].0@ && model(out@[k].1) == (if key_listed(kv, orig[k].0@) {
                        JsonModel::Str(redacted_text())
                    } else {
                        redacted(model(orig[k].1), kv)
                    }),
                decreases rest@.len(),
            {
                assert(rest@.len() == orig.len() - i);
                let (key, value) = rest.remove(0);
                assert(key == orig[i as int].0 && value == orig[i as int].1);
                if key_is_listed(key.as_str(), keys) {
                    let red = string_of(&chars_of("[redacted]"));
                    out.push((key, Json::Str(red)));
                } else {
                    proof {
                        assert(jj->Object_0 == fv);
                        assert(decreases_to!(jj => jj->Object_0));
                        assert(decreases_to!(fv => fv@));
                        assert(decreases_to!(fv@ => fv@[i as int]));
                        assert(decreases_to!(fv@[i as int] => fv@[i as int].1));
                        assert(decreases_to!(jj => value));
                    }
                    let y = redact(value, keys);
                    out.push((key, y));
                }
                i += 1;
                assert(orig.skip(i as int) =~= orig.skip(i - 1).drop_first());
            }
            assert(i == orig.len());
            let r = Json::Object(out);
            proof {
                let mr = model(r);
                let mj = model(jj);
                if let JsonModel::Object(ms) = mj {
                    if let JsonModel::Object(rs) = mr {
                        assert forall|k: int| 0 <= k < rs.len() implies rs[k] == (if key_listed(kv, ms[k].0) {
                            (ms[k].0, JsonModel::Str(redacted_text()))
                        } else {
                            (ms[k].0, redacted(ms[k].1, kv))
                        }) by {
                            assert(ms[k] == (orig[k].0@, model(orig[k].1)));
                            assert(rs[k] == (out@[k].0@, model(out@[k].1)));
                        }
                        let red = redacted(mj, kv);
                        if let JsonModel::Object(xs) = red {
                            assert(xs.len() == ms.len());
                            assert forall|k: int| 0 <= k < xs.len() implies xs[k] == (if key_listed(kv, ms[k].0) {
                                (ms[k].0, JsonModel::Str(redacted_text()))
                            } else {
                                (ms[k].0, redacted(ms[k].1, kv))
                            }) by {}
                            assert(rs =~= xs);
                        }
                    }
                }
            }
            r
        },
        other => other,
    }
}

/// A redacted member keeps its place: redaction changes values only, never
/// which keys an object has or how long an array is.
pub proof fn law_redaction_keeps_shape(m: JsonModel, keys: Seq<Seq<char>>)
    ensures
        (m matches JsonModel::Array(items) ==> (redacted(m, keys) matches JsonModel::Array(out) && out.len() == items.len())),
        (m matches JsonModel::Object(fields) ==> (redacted(m, keys) matches JsonModel::Object(out) && out.len() == fields.len()
            && forall|i: int| 0 <= i < fields.len() ==> (#[trigger] out[i]).0 == fields[i].0)),
{
}

/// Every member whose key is a secret holds `[redacted]` afterwards.
pub proof fn law_secret_members_are_replaced(fields: Seq<(Seq<char>, JsonModel)>, keys: Seq<Seq<char>>, i: int)
    requires
        0 <= i < fields.len(),
        key_listed(keys, fields[i].0),
    ensures
        redacted(JsonModel::Object(fields), keys) matches JsonModel::Object(out) && out[i].1 == JsonModel::Str(
            redacted_text(),
        ),
{
}


/// Redacts a decoded document, given the keys that mark secrets; `None`
/// when there are no keys, since then nothing is to be hidden and the
/// caller passes the body through untouched.
pub fn redact_json(doc: Json, keys: &[String]) -> (r: Option<Json>)
    ensures
        keys@.len() == 0 ==> r is None,
        keys@.len() > 0 ==> (r matches Some(d) && model(d) == redacted(model(doc), views(keys@))),
{
    if keys.len() == 0 {
        return None;
    }
    Some(redact(doc, keys))
}

} // verus!
