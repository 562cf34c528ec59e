//! The registry-free part of editing an OCI image: appending a layer's
//! `diff_id` to the image config, the descriptors of the new blobs, and the
//! rule that a retag stays inside one repository.
//!
//! A layer is a gzipped tar. Its `diff_id` is the digest of the tar itself;
//! its blob digest is that of the gzipped bytes. Without the config update an
//! image with an appended layer is invalid and runtimes refuse to run it.

use vstd::prelude::*;
use crate::redact::{Json, JsonModel, model};
use crate::crypto::{sha256_spec, hex_lower_bytes};
use crate::install::sha256_hex;
use crate::text::{chars_of, chars_eq, string_of, string_from, push_str};

verus! {

/// The media type of a layer this library builds.
pub const LAYER_MEDIA_TYPE: &'static str = "application/vnd.oci.image.layer.v1.tar+gzip";

/// The digest by which a registry knows a blob: `sha256:` and the sha256 of
/// its bytes in lower-case hex.
pub open spec fn digest_text(data: Seq<u8>) -> Seq<char> {
    "sha256:"@ + hex_lower_bytes(sha256_spec(data))
}

/// The digest of a blob, `sha256:<hex>`.
pub fn blob_digest(data: &[u8]) -> (r: String)
    ensures
        r@ == digest_text(data@),
{
    let mut v = chars_of("sha256:");
    let h = sha256_hex(data);
    push_str(&mut v, h.as_str());
    proof {
        assert(v@ =~= digest_text(data@));
    }
    string_of(&v)
}

/// Where the first member named `key` stands, or the length when none is.
pub open spec fn key_index(fields: Seq<(Seq<char>, JsonModel)>, key: Seq<char>) -> int
    decreases fields.len(),
{
    if fields.len() == 0 {
        0
    } else if fields[0].0 == key {
        0
    } else {
        1 + key_index(fields.drop_first(), key)
    }
}

proof fn lemma_key_index_bounds(fields: Seq<(Seq<char>, JsonModel)>, key: Seq<char>)
    ensures
        0 <= key_index(fields, key) <= fields.len(),
    decreases fields.len(),
{
    if fields.len() > 0 {
        lemma_key_index_bounds(fields.drop_first(), key);
    }
}

proof fn lemma_key_index(fields: Seq<(Seq<char>, JsonModel)>, key: Seq<char>, i: int)
    requires
        0 <= i <= fields.len(),
        forall|k: int| 0 <= k < i ==> (#[trigger] fields[k]).0 != key,
        i < fields.len() ==> fields[i].0 == key,
    ensures
        key_index(fields, key) == i,
    decreases i,
{
    if i > 0 {
        let rest = fields.drop_first();
        assert forall|k: int| 0 <= k < i - 1 implies (#[trigger] rest[k]).0 != key by {
            assert(rest[k] == fields[k + 1]);
        }
        lemma_key_index(rest, key, i - 1);
    }
}

/// The refusal of a config without `rootfs`.
pub open spec fn no_rootfs() -> Seq<char> {
    "image config missing 'rootfs'"@
}

/// The refusal of a config whose `rootfs` has no `diff_ids` array.
pub open spec fn no_diff_ids() -> Seq<char> {
    "image config missing 'rootfs.diff_ids' array"@
}

/// An image config with `diff_id` appended to `rootfs.diff_ids`, everything
/// else unchanged; refused where the config is no object with a `rootfs`,
/// or `rootfs` has no `diff_ids` array.
pub open spec fn with_diff_id(config: JsonModel, diff_id: Seq<char>) -> Result<JsonModel, Seq<char>> {
    match config {
        JsonModel::Object(fields) => {
            let i = key_index(fields, "rootfs"@);
            if i >= fields.len() {
                Err(no_rootfs())
            } else {
                match fields[i].1 {
                    JsonModel::Object(rf) => {
                        let j = key_index(rf, "diff_ids"@);
                        if j >= rf.len() {
                            Err(no_diff_ids())
                        } else {
                            match rf[j].1 {
                                JsonModel::Array(ids) => Ok(
                                    JsonModel::Object(
                                        fields.update(
                                            i,
                                            (
                                                fields[i].0,
                                                JsonModel::Object(
                                                    rf.update(
                                                        j,
                                                        (rf[j].0, JsonModel::Array(ids.push(JsonModel::Str(diff_id)))),
                                                    ),
                                                ),
                                            ),
                                        ),
                                    ),
                                ),
                                _ => Err(no_diff_ids()),
                            }
                        }
                    },
                    _ => Err(no_diff_ids()),
                }
            }
        },
        _ => Err(no_rootfs()),
    }
}

fn find_key(fields: &Vec<(String, Json)>, key: &str) -> (r: usize)
    ensures
        r as int == key_index(Seq::new(fields@.len(), |k: int| (fields@[k].0@, model(fields@[k].1))), key@),
        r <= fields@.len(),
{
    let ghost fm = Seq::new(fields@.len(), |k: int| (fields@[k].0@, model(fields@[k].1)));
    let want = chars_of(key);
    let mut i: usize = 0;
    while i < fields.len()
        invariant
            i <= fields@.len(),
            want@ == key@,
            fm == Seq::new(fields@.len(), |k: int| (fields@[k].0@, model(fields@[k].1))),
            forall|k: int| 0 <= k < i ==> (#[trigger] fm[k]).0 != key@,
        decreases fields@.len() - i,
    {
        if chars_eq(&chars_of(fields[i].0.as_str()), &want) {
            proof {
                lemma_key_index(fm, key@, i as int);
            }
            return i;
        }
        i += 1;
    }
    proof {
        lemma_key_index(fm, key@, i as int);
    }
    i
}

fn refusal(text: &str) -> (r: String)
    ensures
        r@ == text@,
{
    string_from(text)
}

/// The image config with `diff_id` appended to `rootfs.diff_ids`; every
/// other member, and the order of all of them, is kept.
#[verifier::rlimit(30)]
pub fn append_diff_id(config: Json, diff_id: &str) -> (r: Result<Json, String>)
    ensures
        match with_diff_id(model(config), diff_id@) {
            Ok(m) => r matches Ok(j) && model(j) == m,
            Err(e) => r matches Err(t) && t@ == e,
        },
{
    let ghost cm = model(config);
    let mut fields = match config {
        Json::Object(fields) => fields,
        _ => {
            return Err(refusal("image config missing 'rootfs'"));
        },
    };
    let ghost f0 = fields@;
    let ghost fm = Seq::new(f0.len(), |k: int| (f0[k].0@, model(f0[k].1)));
    assert(cm == JsonModel::Object(fm)) by {
        if let JsonModel::Object(xs) = cm {
            assert(xs =~= fm);
        }
    }
    let i = find_key(&fields, "rootfs");
    if i >= fields.len() {
        return Err(refusal("image config missing 'rootfs'"));
    }
    let (rkey, rootfs) = fields.remove(i);
    assert(fm[i as int] == (rkey@, model(rootfs)));
    let mut rf = match rootfs {
        Json::Object(rf) => rf,
        _ => {
            return Err(refusal("image config missing 'rootfs.diff_ids' array"));
        },
    };
    let ghost r0 = rf@;
    let ghost rm = Seq::new(r0.len(), |k: int| (r0[k].0@, model(r0[k].1)));
    assert(model(rootfs) == JsonModel::Object(rm)) by {
        if let JsonModel::Object(xs) = model(rootfs) {
            assert(xs =~= rm);
        }
    }
    let j = find_key(&rf, "diff_ids");
    if j >= rf.len() {
        return Err(refusal("image config missing 'rootfs.diff_ids' array"));
    }
    let (dkey, listed) = rf.remove(j);
    assert(rm[j as int] == (dkey@, model(listed)));
    let mut ids = match listed {
        Json::Array(ids) => ids,
        _ => {
            return Err(refusal("image config missing 'rootfs.diff_ids' array"));
        },
    };
    let ghost d0 = ids@;
    let ghost dm = Seq::new(d0.len(), |k: int| model(d0[k]));
    assert(model(listed) == JsonModel::Array(dm)) by {
        if let JsonModel::Array(xs) = model(listed) {
            assert(xs =~= dm);
        }
    }
    let added = string_from(diff_id);
    let ghost entry = Json::Str(added);
    ids.push(Json::Str(added));
    let ghost nv = ids@;
    assert(nv == d0.push(entry));
    let new_ids = Json::Array(ids);
    assert(model(new_ids) == JsonModel::Array(dm.push(JsonModel::Str(diff_id@)))) by {
        if let JsonModel::Array(xs) = model(new_ids) {
            assert(xs.len() == nv.len());
            assert forall|k: int| 0 <= k < xs.len() implies xs[k] == dm.push(JsonModel::Str(diff_id@))[k] by {
                assert(xs[k] == model(nv[k]));
                if k < d0.len() {
                    assert(nv[k] == d0[k]);
                } else {
                    assert(nv[k] == entry);
                }
            }
            assert(xs =~= dm.push(JsonModel::Str(diff_id@)));
        }
    }
    rf.insert(j, (dkey, new_ids));
    let new_rootfs = Json::Object(rf);
    assert(model(new_rootfs) == JsonModel::Object(
        rm.update(j as int, (rm[j as int].0, JsonModel::Array(dm.push(JsonModel::Str(diff_id@))))),
    )) by {
        if let JsonModel::Object(xs) = model(new_rootfs) {
            assert(rf@ =~= r0.update(j as int, rf@[j as int]));
            assert(xs =~= rm.update(j as int, (rm[j as int].0, JsonModel::Array(dm.push(JsonModel::Str(diff_id@))))));
        }
    }
    fields.insert(i, (rkey, new_rootfs));
    let r = Json::Object(fields);
    proof {
        if let JsonModel::Object(xs) = model(r) {
            assert(fields@ =~= f0.update(i as int, fields@[i as int]));
            assert(xs =~= fm.update(
                i as int,
                (fm[i as int].0, JsonModel::Object(
                    rm.update(j as int, (rm[j as int].0, JsonModel::Array(dm.push(JsonModel::Str(diff_id@))))),
                )),
            ));
        }
    }
    Ok(r)
}

/// What a manifest says of a blob: its media type, digest and size.
#[derive(Debug, Clone, PartialEq, Eq)]
pub struct Descriptor {
    pub media_type: String,
    pub digest: String,
    pub size: i64,
}

/// The parts of an image manifest that appending a layer changes: the
/// config's descriptor and the list of layers.
#[derive(Debug, Clone, PartialEq, Eq)]
pub struct ImageManifest {
    pub config: Descriptor,
    pub layers: Vec<Descriptor>,
}

/// The descriptor of a gzipped tar layer.
pub fn layer_descriptor(gz: &[u8]) -> (d: Descriptor)
    requires
        gz@.len() <= i64::MAX,
    ensures
        d.media_type@ == LAYER_MEDIA_TYPE@,
        d.digest@ == digest_text(gz@),
        d.size == gz@.len(),
{
    Descriptor { media_type: string_from(LAYER_MEDIA_TYPE), digest: blob_digest(gz), size: gz.len() as i64 }
}

/// The manifest of an image with a layer appended: the config descriptor
/// names the updated config blob (its media type kept), and the new layer's
/// descriptor follows the existing layers, which are kept as they were.
pub fn with_layer(manifest: ImageManifest, new_config: &[u8], gz: &[u8]) -> (r: ImageManifest)
    requires
        new_config@.len() <= i64::MAX,
        gz@.len() <= i64::MAX,
    ensures
        r.config.media_type@ == manifest.config.media_type@,
        r.config.digest@ == digest_text(new_config@),
        r.config.size == new_config@.len(),
        r.layers@.len() == manifest.layers@.len() + 1,
        forall|k: int| 0 <= k < manifest.layers@.len() ==> r.layers@[k] == manifest.layers@[k],
        r.layers@.last().media_type@ == LAYER_MEDIA_TYPE@,
        r.layers@.last().digest@ == digest_text(gz@),
        r.layers@.last().size == gz@.len(),
{
    let ImageManifest { config, layers } = manifest;
    let mut layers = layers;
    layers.push(layer_descriptor(gz));
    ImageManifest {
        config: Descriptor {
            media_type: config.media_type,
            digest: blob_digest(new_config),
            size: new_config.len() as i64,
        },
        layers,
    }
}

/// An image reference as plain values: its registry, its repository, and
/// the reference as written out.
#[derive(Debug, Clone, PartialEq, Eq)]
pub struct ImageRef {
    pub registry: String,
    pub repository: String,
    pub text: String,
}

/// The refusal of a retag that would leave the repository.
pub open spec fn retag_refusal_text(src: Seq<char>, dst: Seq<char>) -> Seq<char> {
    "oci.tag: src and dst must share registry+repository; got "@ + src + " and "@ + dst
        + ". Use oci.copy for cross-registry."@
}

/// Why a retag from `src` to `dst` is refused, if it is: a retag pushes the
/// same manifest under a new tag, which only works inside one repository of
/// one registry.
pub fn retag_refusal(src: &ImageRef, dst: &ImageRef) -> (r: Option<String>)
    ensures
        src.registry@ == dst.registry@ && src.repository@ == dst.repository@ ==> r is None,
        !(src.registry@ == dst.registry@ && src.repository@ == dst.repository@) ==> (r matches Some(t)
            && t@ == retag_refusal_text(src.text@, dst.text@)),
{
    if chars_eq(&chars_of(src.registry.as_str()), &chars_of(dst.registry.as_str()))
        && chars_eq(&chars_of(src.repository.as_str()), &chars_of(dst.repository.as_str())) {
        return None;
    }
    let mut v = chars_of("oci.tag: src and dst must share registry+repository; got ");
    push_str(&mut v, src.text.as_str());
    push_str(&mut v, " and ");
    push_str(&mut v, dst.text.as_str());
    push_str(&mut v, ". Use oci.copy for cross-registry.");
    proof {
        assert(v@ =~= retag_refusal_text(src.text@, dst.text@));
    }
    Some(string_of(&v))
}

/// The `rootfs.diff_ids` array of an image config, where it has one.
pub open spec fn diff_ids(config: JsonModel) -> Option<Seq<JsonModel>> {
    match config {
        JsonModel::Object(fields) => {
            let i = key_index(fields, "rootfs"@);
            if i < fields.len() {
                match fields[i].1 {
                    JsonModel::Object(rf) => {
                        let j = key_index(rf, "diff_ids"@);
                        if j < rf.len() {
                            match rf[j].1 {
                                JsonModel::Array(ids) => Some(ids),
                                _ => None,
                            }
                        } else {
                            None
                        }
                    },
                    _ => None,
                }
            } else {
                None
            }
        },
        _ => None,
    }
}

proof fn lemma_same_keys(a: Seq<(Seq<char>, JsonModel)>, b: Seq<(Seq<char>, JsonModel)>, key: Seq<char>)
    requires
        a.len() == b.len(),
        forall|k: int| 0 <= k < a.len() ==> (#[trigger] a[k]).0 == b[k].0,
    ensures
        key_index(a, key) == key_index(b, key),
    decreases a.len(),
{
    if a.len() > 0 {
        assert forall|k: int| 0 <= k < a.len() - 1 implies (#[trigger] a.drop_first()[k]).0 == b.drop_first()[k].0 by {
            assert(a.drop_first()[k] == a[k + 1]);
            assert(b.drop_first()[k] == b[k + 1]);
        }
        lemma_same_keys(a.drop_first(), b.drop_first(), key);
    }
}

/// A config takes a `diff_id` exactly when it has a `rootfs.diff_ids`
/// array, and then the new `diff_id` comes last in it, after the old ones
/// in their order; so a config whose `diff_ids` matched the layers one for
/// one still matches them after a layer is appended to both.
pub proof fn law_appended_diff_id_comes_last(config: JsonModel, diff_id: Seq<char>)
    ensures
        with_diff_id(config, diff_id) is Ok <==> diff_ids(config) is Some,
        with_diff_id(config, diff_id) matches Ok(updated) ==> diff_ids(updated) == Some(
            diff_ids(config)->0.push(JsonModel::Str(diff_id)),
        ),
{
    if let JsonModel::Object(fields) = config {
        let i = key_index(fields, "rootfs"@);
        lemma_key_index_bounds(fields, "rootfs"@);
        if i < fields.len() {
            if let JsonModel::Object(rf) = fields[i].1 {
                let j = key_index(rf, "diff_ids"@);
                lemma_key_index_bounds(rf, "diff_ids"@);
                if j < rf.len() {
                    if let JsonModel::Array(ids) = rf[j].1 {
                        let rf2 = rf.update(j, (rf[j].0, JsonModel::Array(ids.push(JsonModel::Str(diff_id)))));
                        let f2 = fields.update(i, (fields[i].0, JsonModel::Object(rf2)));
                        lemma_same_keys(fields, f2, "rootfs"@);
                        lemma_same_keys(rf, rf2, "diff_ids"@);
                    }
                }
            }
        }
    }
}

} // verus!
