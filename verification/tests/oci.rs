use assay::oci::{
    append_diff_id, blob_digest, layer_descriptor, retag_refusal, with_layer, Descriptor, ImageManifest, ImageRef,
    LAYER_MEDIA_TYPE,
};
use assay::redact::Json;

const EMPTY_SHA256: &str = "sha256:e3b0c44298fc1c149afbf4c8996fb92427ae41e4649b934ca495991b7852b855";
const ABC_SHA256: &str = "sha256:ba7816bf8f01cfea414140de5dae2223b00361a396177a9cb410ff61f20015ad";

fn s(t: &str) -> String {
    t.to_string()
}

fn config(diff_ids: Json) -> Json {
    Json::Object(vec![
        (s("architecture"), Json::Str(s("amd64"))),
        (
            s("rootfs"),
            Json::Object(vec![(s("type"), Json::Str(s("layers"))), (s("diff_ids"), diff_ids)]),
        ),
    ])
}

#[test]
fn a_blob_is_known_by_its_sha256() {
    assert_eq!(blob_digest(b""), EMPTY_SHA256);
    assert_eq!(blob_digest(b"abc"), ABC_SHA256);
}

#[test]
fn the_new_diff_id_goes_last_and_nothing_else_moves() {
    let before = config(Json::Array(vec![Json::Str(s("sha256:aaa"))]));
    let after = append_diff_id(before, "sha256:bbb");
    assert_eq!(
        after,
        Ok(config(Json::Array(vec![Json::Str(s("sha256:aaa")), Json::Str(s("sha256:bbb"))])))
    );
}

#[test]
fn a_config_without_rootfs_is_refused() {
    let no_rootfs = Json::Object(vec![(s("architecture"), Json::Str(s("amd64")))]);
    assert_eq!(append_diff_id(no_rootfs, "sha256:b"), Err(s("image config missing 'rootfs'")));
    assert_eq!(append_diff_id(Json::Null, "sha256:b"), Err(s("image config missing 'rootfs'")));
}

#[test]
fn a_rootfs_without_a_diff_ids_array_is_refused() {
    let expected = || -> Result<Json, String> { Err(s("image config missing 'rootfs.diff_ids' array")) };
    let no_list = Json::Object(vec![(s("rootfs"), Json::Object(vec![(s("type"), Json::Str(s("layers")))]))]);
    assert_eq!(append_diff_id(no_list, "sha256:b"), expected());
    assert_eq!(append_diff_id(config(Json::Str(s("sha256:a"))), "sha256:b"), expected());
    let rootfs_not_object = Json::Object(vec![(s("rootfs"), Json::Array(vec![]))]);
    assert_eq!(append_diff_id(rootfs_not_object, "sha256:b"), expected());
}

#[test]
fn a_new_layer_is_described_by_its_gzipped_bytes() {
    let d = layer_descriptor(b"abc");
    assert_eq!(d.media_type, LAYER_MEDIA_TYPE);
    assert_eq!(d.digest, ABC_SHA256);
    assert_eq!(d.size, 3);
}

#[test]
fn appending_a_layer_repoints_the_config_and_keeps_the_old_layers() {
    let old_layer = Descriptor { media_type: s("application/x"), digest: s("sha256:old"), size: 9 };
    let manifest = ImageManifest {
        config: Descriptor { media_type: s("application/vnd.oci.image.config.v1+json"), digest: s("sha256:c"), size: 1 },
        layers: vec![old_layer.clone()],
    };
    let m = with_layer(manifest, b"", b"abc");
    assert_eq!(m.config.media_type, "application/vnd.oci.image.config.v1+json");
    assert_eq!(m.config.digest, EMPTY_SHA256);
    assert_eq!(m.config.size, 0);
    assert_eq!(m.layers.len(), 2);
    assert_eq!(m.layers[0], old_layer);
    assert_eq!(m.layers[1].digest, ABC_SHA256);
    assert_eq!(m.layers[1].size, 3);
}

#[test]
fn a_retag_must_stay_in_its_repository() {
    let src = ImageRef { registry: s("ghcr.io"), repository: s("acme/app"), text: s("ghcr.io/acme/app:1") };
    let same = ImageRef { registry: s("ghcr.io"), repository: s("acme/app"), text: s("ghcr.io/acme/app:2") };
    assert_eq!(retag_refusal(&src, &same), None);
    let other = ImageRef { registry: s("docker.io"), repository: s("acme/app"), text: s("docker.io/acme/app:2") };
    assert_eq!(
        retag_refusal(&src, &other),
        Some(s(
            "oci.tag: src and dst must share registry+repository; got ghcr.io/acme/app:1 and docker.io/acme/app:2. Use oci.copy for cross-registry."
        ))
    );
}
