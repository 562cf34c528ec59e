//! YAML documents as scripts see them. A tagged node, such as
//! `!reference [a, b]`, becomes a one-key table keyed by its tag (or, on
//! request, just its payload); on encoding, a one-key table whose key starts
//! with `!` becomes a tagged node again. Everything else maps one for one,
//! so an untagged document encodes exactly as it would without tags.

use vstd::prelude::*;
use crate::redact::{Json, JsonModel, model};
use crate::text::{chars_of, string_of, push_str, push_chars};

verus! {

/// What a tag becomes when a document is decoded.
#[derive(Debug, Clone, Copy, PartialEq, Eq, Structural)]
pub enum TagMode {
    /// A one-key table keyed by the tag text: `{ ["!reference"] = payload }`.
    Wrap,
    /// The payload alone, as if the node carried no tag.
    Strip,
}

/// What an options table holds under `tags`.
#[derive(Debug, PartialEq, Eq)]
pub enum TagsOption {
    /// No options, or no `tags` entry.
    Absent,
    /// A string.
    Text(String),
    /// A value of another kind, by its type name.
    Other(String),
}

/// The refusal of a `tags` option that is neither `"wrap"` nor `"strip"`;
/// `got` is the quoted text, or the type name of a non-string.
pub open spec fn tags_refusal(fname: Seq<char>, got: Seq<char>) -> Seq<char> {
    fname + ": tags must be \"wrap\" or \"strip\", got "@ + got
}

/// The tag mode that an options table asks for: wrapping unless it says
/// `"strip"`; any other string, or a value that is no string, is refused.
pub fn tag_mode(fname: &str, tags: &TagsOption) -> (r: Result<TagMode, String>)
    ensures
        tags is Absent ==> r == Ok::<TagMode, String>(TagMode::Wrap),
        tags matches TagsOption::Text(t) ==> (if t@ == "wrap"@ {
            r == Ok::<TagMode, String>(TagMode::Wrap)
        } else if t@ == "strip"@ {
            r == Ok::<TagMode, String>(TagMode::Strip)
        } else {
            r matches Err(e) && e@ == tags_refusal(fname@, "\""@ + t@ + "\""@)
        }),
        tags matches TagsOption::Other(n) ==> (r matches Err(e) && e@ == tags_refusal(fname@, n@)),
{
    match tags {
        TagsOption::Absent => Ok(TagMode::Wrap),
        TagsOption::Text(t) => {
            let c = chars_of(t.as_str());
            if crate::text::chars_eq(&c, &chars_of("wrap")) {
                Ok(TagMode::Wrap)
            } else if crate::text::chars_eq(&c, &chars_of("strip")) {
                Ok(TagMode::Strip)
            } else {
                let mut v = chars_of(fname);
                push_str(&mut v, ": tags must be \"wrap\" or \"strip\", got ");
                push_str(&mut v, "\"");
                push_chars(&mut v, &c);
                push_str(&mut v, "\"");
                proof {
                    assert(v@ =~= tags_refusal(fname@, "\""@ + t@ + "\""@));
                }
                Err(string_of(&v))
            }
        },
        TagsOption::Other(n) => {
            let mut v = chars_of(fname);
            push_str(&mut v, ": tags must be \"wrap\" or \"strip\", got ");
            push_str(&mut v, n.as_str());
            proof {
                assert(v@ =~= tags_refusal(fname@, n@));
            }
            Err(string_of(&v))
        },
    }
}

/// A YAML node. A number keeps the text it was written with.
#[derive(Debug, PartialEq, Eq)]
pub enum Yaml {
    Null,
    Bool(bool),
    Number(String),
    Str(String),
    Sequence(Vec<Yaml>),
    Mapping(Vec<(Yaml, Yaml)>),
    Tagged(String, Box<Yaml>),
}

/// A YAML node as plain values.
pub enum YamlModel {
    Null,
    Bool(bool),
    Number(Seq<char>),
    Str(Seq<char>),
    Sequence(Seq<YamlModel>),
    Mapping(Seq<(YamlModel, YamlModel)>),
    Tagged(Seq<char>, Box<YamlModel>),
}

/// A node as plain values.
pub open spec fn ymodel(y: Yaml) -> YamlModel
    decreases y,
{
    match y {
        Yaml::Null => YamlModel::Null,
        Yaml::Bool(b) => YamlModel::Bool(b),
        Yaml::Number(n) => YamlModel::Number(n@),
        Yaml::Str(s) => YamlModel::Str(s@),
        Yaml::Sequence(items) => YamlModel::Sequence(
            Seq::new(
                items@.len(),
                |i: int|
                    {
                        if 0 <= i < items@.len() {
                            proof {
                                assert(decreases_to!(items => items@));
                                assert(decreases_to!(items@ => items@[i]));
                            }
                            ymodel(items@[i])
                        } else {
                            YamlModel::Null
                        }
                    },
            ),
        ),
        Yaml::Mapping(entries) => YamlModel::Mapping(
            Seq::new(
                entries@.len(),
                |i: int|
                    {
                        if 0 <= i < entries@.len() {
                            proof {
                                assert(decreases_to!(entries => entries@));
                                assert(decreases_to!(entries@ => entries@[i]));
                                assert(decreases_to!(entries@[i] => entries@[i].0));
                                assert(decreases_to!(entries@[i] => entries@[i].1));
                            }
                            (ymodel(entries@[i].0), ymodel(entries@[i].1))
                        } else {
                            (YamlModel::Null, YamlModel::Null)
                        }
                    },
            ),
        ),
        Yaml::Tagged(tag, payload) => YamlModel::Tagged(tag@, Box::new(ymodel(*payload))),
    }
}

/// Whether a key is a tag: it starts with `!`.
pub open spec fn is_tag_key(k: Seq<char>) -> bool {
    k.len() > 0 && k[0] == '!'
}

/// Whether an object is a tagged node in disguise: one member, keyed by a tag.
pub open spec fn is_tag_object(fields: Seq<(Seq<char>, JsonModel)>) -> bool {
    fields.len() == 1 && is_tag_key(fields[0].0)
}

/// The YAML node for a document: a one-member object keyed by a tag becomes
/// that tag on the encoded member; everything else maps one for one, members
/// in their order.
pub open spec fn encoded(m: JsonModel) -> YamlModel
    decreases m,
{
    match m {
        JsonModel::Null => YamlModel::Null,
        JsonModel::Bool(b) => YamlModel::Bool(b),
        JsonModel::Number(n) => YamlModel::Number(n),
        JsonModel::Str(s) => YamlModel::Str(s),
        JsonModel::Array(items) => YamlModel::Sequence(
            Seq::new(
                items.len(),
                |i: int|
                    {
                        if 0 <= i < items.len() {
                            proof {
                                assert(decreases_to!(items => items[i]));
                            }
                            encoded(items[i])
                        } else {
                            YamlModel::Null
                        }
                    },
            ),
        ),
        JsonModel::Object(fields) => {
            if is_tag_object(fields) {
                proof {
                    assert(decreases_to!(fields => fields[0]));
                    assert(decreases_to!(fields[0] => fields[0].1));
                }
                YamlModel::Tagged(fields[0].0, Box::new(encoded(fields[0].1)))
            } else {
                YamlModel::Mapping(
                    Seq::new(
                        fields.len(),
                        |i: int|
                            {
                                if 0 <= i < fields.len() {
                                    proof {
                                        assert(decreases_to!(fields => fields[i]));
                                        assert(decreases_to!(fields[i] => fields[i].1));
                                    }
                                    (YamlModel::Str(fields[i].0), encoded(fields[i].1))
                                } else {
                                    (YamlModel::Null, YamlModel::Null)
                                }
                            },
                    ),
                )
            }
        },
    }
}

/// The structural YAML node for a document, with no regard to tags.
pub open spec fn plain(m: JsonModel) -> YamlModel
    decreases m,
{
    match m {
        JsonModel::Null => YamlModel::Null,
        JsonModel::Bool(b) => YamlModel::Bool(b),
        JsonModel::Number(n) => YamlModel::Number(n),
        JsonModel::Str(s) => YamlModel::Str(s),
        JsonModel::Array(items) => YamlModel::Sequence(
            Seq::new(
                items.len(),
                |i: int|
                    {
                        if 0 <= i < items.len() {
                            proof {
                                assert(decreases_to!(items => items[i]));
                            }
                            plain(items[i])
                        } else {
                            YamlModel::Null
                        }
                    },
            ),
        ),
        JsonModel::Object(fields) => YamlModel::Mapping(
            Seq::new(
                fields.len(),
                |i: int|
                    {
                        if 0 <= i < fields.len() {
                            proof {
                                assert(decreases_to!(fields => fields[i]));
                                assert(decreases_to!(fields[i] => fields[i].1));
                            }
                            (YamlModel::Str(fields[i].0), plain(fields[i].1))
                        } else {
                            (YamlModel::Null, YamlModel::Null)
                        }
                    },
            ),
        ),
    }
}

/// Whether no object anywhere in a document is a one-member object keyed
/// by a tag.
pub open spec fn untagged(m: JsonModel) -> bool
    decreases m,
{
    match m {
        JsonModel::Array(items) => forall|i: int| 0 <= i < items.len() ==> untagged(#[trigger] items[i]),
        JsonModel::Object(fields) => !is_tag_object(fields) && forall|i: int|
            0 <= i < fields.len() ==> untagged(#[trigger] fields[i].1),
        _ => true,
    }
}

/// Whether every mapping key in a node, at any depth, is a string.
pub open spec fn keys_are_text(y: YamlModel) -> bool
    decreases y,
{
    match y {
        YamlModel::Sequence(items) => forall|i: int| 0 <= i < items.len() ==> keys_are_text(#[trigger] items[i]),
        YamlModel::Mapping(entries) => forall|i: int|
            0 <= i < entries.len() ==> (#[trigger] entries[i]).0 is Str && keys_are_text(entries[i].1),
        YamlModel::Tagged(_, payload) => keys_are_text(*payload),
        _ => true,
    }
}

/// The text of a string key.
pub open spec fn key_text(k: YamlModel) -> Seq<char> {
    match k {
        YamlModel::Str(s) => s,
        _ => Seq::empty(),
    }
}

/// The document a node decodes to: a tagged node becomes a one-member object
/// keyed by its tag (`Wrap`) or its payload alone (`Strip`); everything else
/// maps one for one, entries in their order.
pub open spec fn decoded(y: YamlModel, mode: TagMode) -> JsonModel
    decreases y,
{
    match y {
        YamlModel::Null => JsonModel::Null,
        YamlModel::Bool(b) => JsonModel::Bool(b),
        YamlModel::Number(n) => JsonModel::Number(n),
        YamlModel::Str(s) => JsonModel::Str(s),
        YamlModel::Sequence(items) => JsonModel::Array(
            Seq::new(
                items.len(),
                |i: int|
                    {
                        if 0 <= i < items.len() {
                            proof {
                                assert(decreases_to!(items => items[i]));
                            }
                            decoded(items[i], mode)
                        } else {
                            JsonModel::Null
                        }
                    },
            ),
        ),
        YamlModel::Mapping(entries) => JsonModel::Object(
            Seq::new(
                entries.len(),
                |i: int|
                    {
                        if 0 <= i < entries.len() {
                            proof {
                                assert(decreases_to!(entries => entries[i]));
                                assert(decreases_to!(entries[i] => entries[i].1));
                            }
                            (key_text(entries[i].0), decoded(entries[i].1, mode))
                        } else {
                            (Seq::empty(), JsonModel::Null)
                        }
                    },
            ),
        ),
        YamlModel::Tagged(tag, payload) => match mode {
            TagMode::Strip => decoded(*payload, mode),
            TagMode::Wrap => JsonModel::Object(seq![(tag, decoded(*payload, mode))]),
        },
    }
}

/// The refusal of a mapping whose key is not a string.
pub open spec fn key_refusal(fname: Seq<char>) -> Seq<char> {
    fname + ": unsupported YAML mapping key: expected a string"@
}

/// The YAML node for a document: a one-member object keyed by a tag (a key
/// starting with `!`) becomes a node with that tag; everything else maps one
/// for one, members in their order.
#[verifier::loop_isolation(false)]
pub fn encode(j: Json) -> (r: Yaml)
    ensures
        ymodel(r) == encoded(model(j)),
    decreases j,
{
    let ghost jj = j;
    match j {
        Json::Null => Yaml::Null,
        Json::Bool(b) => Yaml::Bool(b),
        Json::Number(n) => Yaml::Number(n),
        Json::Str(s) => Yaml::Str(s),
        Json::Array(items) => {
            let ghost iv = items;
            let ghost orig = items@;
            let mut rest = items;
            let n = rest.len();
            let mut out: Vec<Yaml> = Vec::new();
            let mut i: usize = 0;
            while rest.len() > 0
                invariant
                    i <= orig.len(),
                    orig.len() == n,
                    orig == iv@,
                    jj == Json::Array(iv),
                    rest@ == orig.skip(i as int),
                    out@.len() == i,
                    forall|k: int| 0 <= k < i ==> ymodel(#[trigger] out@[k]) == encoded(model(orig[k])),
                decreases rest@.len(),
            {
                let x = rest.remove(0);
                assert(x == orig[i as int]);
                proof {
                    assert(decreases_to!(jj => jj->Array_0));
                    assert(decreases_to!(iv => iv@));
                    assert(decreases_to!(iv@ => iv@[i as int]));
                }
                let y = encode(x);
                out.push(y);
                i += 1;
                assert(orig.skip(i as int) =~= orig.skip(i - 1).drop_first());
            }
            let r = Yaml::Sequence(out);
            proof {
                if let JsonModel::Array(ms) = model(jj) {
                    if let YamlModel::Sequence(rs) = ymodel(r) {
                        if let YamlModel::Sequence(xs) = encoded(model(jj)) {
                            assert forall|k: int| 0 <= k < xs.len() implies rs[k] == xs[k] by {
                                assert(ms[k] == model(orig[k]));
                                assert(rs[k] == ymodel(out@[k]));
                            }
                            assert(rs =~= xs);
                        }
                    }
                }
            }
            r
        },
        Json::Object(fields) => {
            let ghost fv = fields;
            let ghost orig = fields@;
            let mut tagged = false;
            if fields.len() == 1 {
                let c = chars_of(fields[0].0.as_str());
                tagged = c.len() > 0 && c[0] == '!';
            }
            assert(tagged == (orig.len() == 1 && is_tag_key(orig[0].0@)));
            if tagged {
                let mut rest = fields;
                let (key, value) = rest.remove(0);
                proof {
                    assert(key == orig[0].0 && value == orig[0].1);
                    assert(decreases_to!(jj => jj->Object_0));
                    assert(decreases_to!(fv => fv@));
                    assert(decreases_to!(fv@ => fv@[0]));
                    assert(decreases_to!(fv@[0] => fv@[0].1));
                }
                let y = encode(value);
                let r = Yaml::Tagged(key, Box::new(y));
                proof {
                    if let JsonModel::Object(ms) = model(jj) {
                        assert(ms[0] == (orig[0].0@, model(orig[0].1)));
                        assert(is_tag_object(ms));
                    }
                }
                return r;
            }
            let mut rest = fields;
            let n = rest.len();
            let mut out: Vec<(Yaml, Yaml)> = Vec::new();
            let mut i: usize = 0;
            while rest.len() > 0
                invariant
                    i <= orig.len(),
                    orig.len() == n,
                    orig == fv@,
                    jj == Json::Object(fv),
                    rest@ == orig.skip(i as int),
                    out@.len() == i,
                    forall|k: int| 0 <= k < i ==> ymodel((#[trigger] out@[k]).0) == YamlModel::Str(orig[k].0@)
                        && ymodel(out@[k].1) == encoded(model(orig[k].1)),
                decreases rest@.len(),
            {
                let (key, value) = rest.remove(0);
                assert(key == orig[i as int].0 && value == orig[i as int].1);
                proof {
                    assert(decreases_to!(jj => jj->Object_0));
                    assert(decreases_to!(fv => fv@));
                    assert(decreases_to!(fv@ => fv@[i as int]));
                    assert(decreases_to!(fv@[i as int] => fv@[i as int].1));
                }
                let y = encode(value);
                out.push((Yaml::Str(key), y));
                i += 1;
                assert(orig.skip(i as int) =~= orig.skip(i - 1).drop_first());
            }
            let r = Yaml::Mapping(out);
            proof {
                if let JsonModel::Object(ms) = model(jj) {
                    assert(ms.len() == orig.len());
                    if orig.len() == 1 {
                        assert(ms[0] == (orig[0].0@, model(orig[0].1)));
                    }
                    assert(!is_tag_object(ms));
                    if let YamlModel::Mapping(rs) = ymodel(r) {
                        if let YamlModel::Mapping(xs) = encoded(model(jj)) {
                            assert forall|k: int| 0 <= k < xs.len() implies rs[k] == xs[k] by {
                                assert(ms[k] == (orig[k].0@, model(orig[k].1)));
                                assert(rs[k] == (ymodel(out@[k].0), ymodel(out@[k].1)));
                            }
                            assert(rs =~= xs);
                        }
                    }
                }
            }
            r
        },
    }
}

fn key_error(fname: &str) -> (e: String)
    ensures
        e@ == key_refusal(fname@),
{
    let mut v = chars_of(fname);
    push_str(&mut v, ": unsupported YAML mapping key: expected a string");
    proof {
        assert(v@ =~= key_refusal(fname@));
    }
    string_of(&v)
}

/// The document a node decodes to, or the refusal of a mapping key that is
/// not a string (`fname` names the caller in it). A tagged node becomes a
/// one-member object keyed by its tag under `Wrap`, its payload alone under
/// `Strip`.
#[verifier::loop_isolation(false)]
pub fn decode(y: Yaml, mode: TagMode, fname: &str) -> (r: Result<Json, String>)
    ensures
        r is Ok <==> keys_are_text(ymodel(y)),
        r matches Ok(j) ==> model(j) == decoded(ymodel(y), mode),
        r matches Err(e) ==> e@ == key_refusal(fname@),
    decreases y,
{
    let ghost yy = y;
    match y {
        Yaml::Null => Ok(Json::Null),
        Yaml::Bool(b) => Ok(Json::Bool(b)),
        Yaml::Number(n) => Ok(Json::Number(n)),
        Yaml::Str(s) => Ok(Json::Str(s)),
        Yaml::Sequence(items) => {
            let ghost iv = items;
            let ghost orig = items@;
            let mut rest = items;
            let n = rest.len();
            let mut out: Vec<Json> = Vec::new();
            let mut i: usize = 0;
            while rest.len() > 0
                invariant
                    i <= orig.len(),
                    orig.len() == n,
                    orig == iv@,
                    yy == Yaml::Sequence(iv),
                    rest@ == orig.skip(i as int),
                    out@.len() == i,
                    forall|k: int| 0 <= k < i ==> keys_are_text(ymodel(orig[k])),
                    forall|k: int| 0 <= k < i ==> model(#[trigger] out@[k]) == decoded(ymodel(orig[k]), mode),
                decreases rest@.len(),
            {
                let x = rest.remove(0);
                assert(x == orig[i as int]);
                proof {
                    assert(decreases_to!(yy => yy->Sequence_0));
                    assert(decreases_to!(iv => iv@));
                    assert(decreases_to!(iv@ => iv@[i as int]));
                }
                match decode(x, mode, fname) {
                    Ok(d) => {
                        out.push(d);
                    },
                    Err(e) => {
                        proof {
                            if let YamlModel::Sequence(ms) = ymodel(yy) {
                                assert(ms[i as int] == ymodel(orig[i as int]));
                            }
                        }
                        return Err(e);
                    },
                }
                i += 1;
                assert(orig.skip(i as int) =~= orig.skip(i - 1).drop_first());
            }
            let r = Json::Array(out);
            proof {
                if let YamlModel::Sequence(ms) = ymodel(yy) {
                    assert forall|k: int| 0 <= k < ms.len() implies keys_are_text(#[trigger] ms[k]) by {
                        assert(ms[k] == ymodel(orig[k]));
                    }
                    if let JsonModel::Array(rs) = model(r) {
                        if let JsonModel::Array(xs) = decoded(ymodel(yy), mode) {
                            assert forall|k: int| 0 <= k < xs.len() implies rs[k] == xs[k] by {
                                assert(ms[k] == ymodel(orig[k]));
                                assert(rs[k] == model(out@[k]));
                            }
                            assert(rs =~= xs);
                        }
                    }
                }
            }
            Ok(r)
        },
        Yaml::Mapping(entries) => {
            let ghost ev = entries;
            let ghost orig = entries@;
            let mut rest = entries;
            let n = rest.len();
            let mut out: Vec<(String, Json)> = Vec::new();
            let mut i: usize = 0;
            while rest.len() > 0
                invariant
                    i <= orig.len(),
                    orig.len() == n,
                    orig == ev@,
                    yy == Yaml::Mapping(ev),
                    rest@ == orig.skip(i as int),
                    out@.len() == i,
                    forall|k: int| 0 <= k < i ==> ymodel(orig[k].0) is Str && keys_are_text(ymodel(orig[k].1)),
                    forall|k: int| 0 <= k < i ==> (#[trigger] out@[k]).0@ == key_text(ymodel(orig[k].0))
                        && model(out@[k].1) == decoded(ymodel(orig[k].1), mode),
                decreases rest@.len(),
            {
                let (key, value) = rest.remove(0);
                assert(key == orig[i as int].0 && value == orig[i as int].1);
                proof {
                    if let YamlModel::Mapping(ms) = ymodel(yy) {
                        assert(ms[i as int] == (ymodel(orig[i as int].0), ymodel(orig[i as int].1)));
                    }
                }
                let text = match key {
                    Yaml::Str(t) => t,
                    _ => {
                        return Err(key_error(fname));
                    },
                };
                proof {
                    assert(decreases_to!(yy => yy->Mapping_0));
                    assert(decreases_to!(ev => ev@));
                    assert(decreases_to!(ev@ => ev@[i as int]));
                    assert(decreases_to!(ev@[i as int] => ev@[i as int].1));
                }
                match decode(value, mode, fname) {
                    Ok(d) => {
                        out.push((text, d));
                    },
                    Err(e) => {
                        return Err(e);
                    },
                }
                i += 1;
                assert(orig.skip(i as int) =~= orig.skip(i - 1).drop_first());
            }
            let r = Json::Object(out);
            proof {
                if let YamlModel::Mapping(ms) = ymodel(yy) {
                    assert forall|k: int| 0 <= k < ms.len() implies (#[trigger] ms[k]).0 is Str && keys_are_text(ms[k].1) by {
                        assert(ms[k] == (ymodel(orig[k].0), ymodel(orig[k].1)));
                    }
                    if let JsonModel::Object(rs) = model(r) {
                        if let JsonModel::Object(xs) = decoded(ymodel(yy), mode) {
                            assert forall|k: int| 0 <= k < xs.len() implies rs[k] == xs[k] by {
                                assert(ms[k] == (ymodel(orig[k].0), ymodel(orig[k].1)));
                                assert(rs[k] == (out@[k].0@, model(out@[k].1)));
                            }
                            assert(rs =~= xs);
                        }
                    }
                }
            }
            Ok(r)
        },
        Yaml::Tagged(tag, payload) => {
            proof {
                assert(decreases_to!(yy => *yy->Tagged_1));
            }
            let inner = decode(*payload, mode, fname);
            match inner {
                Ok(d) => match mode {
                    TagMode::Strip => Ok(d),
                    TagMode::Wrap => {
                        let mut members: Vec<(String, Json)> = Vec::new();
                        members.push((tag, d));
                        let r = Json::Object(members);
                        proof {
                            if let JsonModel::Object(rs) = model(r) {
                                if let JsonModel::Object(xs) = decoded(ymodel(yy), mode) {
                                    assert(rs =~= xs);
                                }
                            }
                        }
                        Ok(r)
                    },
                },
                Err(e) => Err(e),
            }
        },
    }
}

/// Several nodes as plain values.
pub open spec fn ymodels(docs: Seq<Yaml>) -> Seq<YamlModel> {
    docs.map_values(|d: Yaml| ymodel(d))
}

/// Several documents as plain values.
pub open spec fn models(docs: Seq<Json>) -> Seq<JsonModel> {
    docs.map_values(|d: Json| model(d))
}

/// The documents of a stream, decoded, with the empty (null) ones left out.
pub open spec fn kept(docs: Seq<YamlModel>, mode: TagMode) -> Seq<JsonModel>
    decreases docs.len(),
{
    if docs.len() == 0 {
        Seq::empty()
    } else {
        let rest = kept(docs.drop_last(), mode);
        if docs.last() is Null {
            rest
        } else {
            rest.push(decoded(docs.last(), mode))
        }
    }
}

/// The documents of a stream, decoded in order, leaving out the empty ones;
/// or the refusal of a mapping key that is not a string, in any of them.
#[verifier::loop_isolation(false)]
pub fn decode_all(docs: Vec<Yaml>, mode: TagMode, fname: &str) -> (r: Result<Vec<Json>, String>)
    ensures
        r is Ok <==> forall|i: int| 0 <= i < docs@.len() ==> keys_are_text(#[trigger] ymodels(docs@)[i]),
        r matches Ok(v) ==> models(v@) == kept(ymodels(docs@), mode),
        r matches Err(e) ==> e@ == key_refusal(fname@),
{
    let ghost orig = docs@;
    let mut rest = docs;
    let n = rest.len();
    let mut out: Vec<Json> = Vec::new();
    let mut i: usize = 0;
    while rest.len() > 0
        invariant
            i <= orig.len(),
            orig.len() == n,
            rest@ == orig.skip(i as int),
            forall|k: int| 0 <= k < i ==> keys_are_text(#[trigger] ymodels(orig)[k]),
            models(out@) == kept(ymodels(orig.take(i as int)), mode),
        decreases rest@.len(),
    {
        let x = rest.remove(0);
        assert(x == orig[i as int]);
        let ghost before = out@;
        assert(ymodels(orig.take(i as int + 1)).drop_last() =~= ymodels(orig.take(i as int)));
        assert(ymodels(orig.take(i as int + 1)).last() == ymodel(orig[i as int]));
        if let Yaml::Null = x {
        } else {
            match decode(x, mode, fname) {
                Ok(d) => {
                    out.push(d);
                    assert(models(out@) =~= models(before).push(model(d)));
                },
                Err(e) => {
                    assert(ymodels(orig)[i as int] == ymodel(orig[i as int]));
                    assert(!keys_are_text(ymodels(orig)[i as int]));
                    return Err(e);
                },
            }
        }
        assert(ymodels(orig)[i as int] == ymodel(orig[i as int]));
        i += 1;
        assert(orig.skip(i as int) =~= orig.skip(i - 1).drop_first());
    }
    assert(orig.take(i as int) =~= orig);
    Ok(out)
}

/// Encoding a document and decoding it again with tags wrapped gives the
/// document back: a one-member object keyed by a tag survives as just that.
/// Every key of an encoded document is a string, so decoding it never fails.
pub proof fn law_wrapped_tags_round_trip(m: JsonModel)
    ensures
        keys_are_text(encoded(m)),
        decoded(encoded(m), TagMode::Wrap) == m,
    decreases m,
{
    match m {
        JsonModel::Array(items) => {
            let e = encoded(m);
            if let YamlModel::Sequence(es) = e {
                assert forall|i: int| 0 <= i < es.len() implies keys_are_text(#[trigger] es[i])
                    && decoded(es[i], TagMode::Wrap) == items[i] by {
                    assert(decreases_to!(m => items[i]));
                    law_wrapped_tags_round_trip(items[i]);
                }
                if let JsonModel::Array(ds) = decoded(e, TagMode::Wrap) {
                    assert(ds =~= items);
                }
            }
        },
        JsonModel::Object(fields) => {
            let e = encoded(m);
            if is_tag_object(fields) {
                assert(decreases_to!(m => fields[0].1));
                law_wrapped_tags_round_trip(fields[0].1);
                if let JsonModel::Object(ds) = decoded(e, TagMode::Wrap) {
                    assert(ds =~= fields);
                }
            } else {
                if let YamlModel::Mapping(es) = e {
                    assert forall|i: int| 0 <= i < es.len() implies (#[trigger] es[i]).0 is Str
                        && keys_are_text(es[i].1) && key_text(es[i].0) == fields[i].0
                        && decoded(es[i].1, TagMode::Wrap) == fields[i].1 by {
                        assert(decreases_to!(m => fields[i].1));
                        law_wrapped_tags_round_trip(fields[i].1);
                    }
                    if let JsonModel::Object(ds) = decoded(e, TagMode::Wrap) {
                        assert(ds =~= fields);
                    }
                }
            }
        },
        _ => {},
    }
}

/// A document with no one-member object keyed by a tag encodes exactly as
/// it would if tags were not understood at all.
pub proof fn law_untagged_documents_encode_plainly(m: JsonModel)
    requires
        untagged(m),
    ensures
        encoded(m) == plain(m),
    decreases m,
{
    match m {
        JsonModel::Array(items) => {
            if let YamlModel::Sequence(es) = encoded(m) {
                if let YamlModel::Sequence(ps) = plain(m) {
                    assert forall|i: int| 0 <= i < es.len() implies es[i] == ps[i] by {
                        assert(decreases_to!(m => items[i]));
                        assert(untagged(items[i]));
                        law_untagged_documents_encode_plainly(items[i]);
                    }
                    assert(es =~= ps);
                }
            }
        },
        JsonModel::Object(fields) => {
            if let YamlModel::Mapping(es) = encoded(m) {
                if let YamlModel::Mapping(ps) = plain(m) {
                    assert forall|i: int| 0 <= i < es.len() implies es[i] == ps[i] by {
                        assert(decreases_to!(m => fields[i].1));
                        assert(untagged(fields[i].1));
                        law_untagged_documents_encode_plainly(fields[i].1);
                    }
                    assert(es =~= ps);
                }
            }
        },
        _ => {},
    }
}

/// A document with every one-member object keyed by a tag replaced by its
/// member's value, at any depth.
pub open spec fn stripped(m: JsonModel) -> JsonModel
    decreases m,
{
    match m {
        JsonModel::Array(items) => JsonModel::Array(
            Seq::new(
                items.len(),
                |i: int|
                    {
                        if 0 <= i < items.len() {
                            proof {
                                assert(decreases_to!(items => items[i]));
                            }
                            stripped(items[i])
                        } else {
                            JsonModel::Null
                        }
                    },
            ),
        ),
        JsonModel::Object(fields) => {
            if is_tag_object(fields) {
                proof {
                    assert(decreases_to!(fields => fields[0]));
                    assert(decreases_to!(fields[0] => fields[0].1));
                }
                stripped(fields[0].1)
            } else {
                JsonModel::Object(
                    Seq::new(
                        fields.len(),
                        |i: int|
                            {
                                if 0 <= i < fields.len() {
                                    proof {
                                        assert(decreases_to!(fields => fields[i]));
                                        assert(decreases_to!(fields[i] => fields[i].1));
                                    }
                                    (fields[i].0, stripped(fields[i].1))
                                } else {
                                    (Seq::empty(), JsonModel::Null)
                                }
                            },
                    ),
                )
            }
        },
        _ => m,
    }
}

/// Encoding a document and decoding it again with tags stripped gives the
/// document with each one-member object keyed by a tag replaced by its
/// member's value.
pub proof fn law_stripped_tags_leave_payloads(m: JsonModel)
    ensures
        decoded(encoded(m), TagMode::Strip) == stripped(m),
    decreases m,
{
    match m {
        JsonModel::Array(items) => {
            let e = encoded(m);
            if let YamlModel::Sequence(es) = e {
                if let JsonModel::Array(ds) = decoded(e, TagMode::Strip) {
                    if let JsonModel::Array(ss) = stripped(m) {
                        assert forall|i: int| 0 <= i < ds.len() implies ds[i] == ss[i] by {
                            assert(decreases_to!(m => items[i]));
                            law_stripped_tags_leave_payloads(items[i]);
                        }
                        assert(ds =~= ss);
                    }
                }
            }
        },
        JsonModel::Object(fields) => {
            let e = encoded(m);
            if is_tag_object(fields) {
                assert(decreases_to!(m => fields[0].1));
                law_stripped_tags_leave_payloads(fields[0].1);
            } else {
                if let YamlModel::Mapping(es) = e {
                    if let JsonModel::Object(ds) = decoded(e, TagMode::Strip) {
                        if let JsonModel::Object(ss) = stripped(m) {
                            assert forall|i: int| 0 <= i < ds.len() implies ds[i] == ss[i] by {
                                assert(decreases_to!(m => fields[i].1));
                                law_stripped_tags_leave_payloads(fields[i].1);
                            }
                            assert(ds =~= ss);
                        }
                    }
                }
            }
        },
        _ => {},
    }
}

} // verus!
