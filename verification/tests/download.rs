use assay::download::{count_chunk, download_args, fresh_temp_path, max_size_of, temp_path, DEFAULT_MAX_SIZE};
use assay::http_client::ArgKind;

#[test]
fn a_download_needs_a_url_and_a_path() {
    assert_eq!(download_args(&[ArgKind::Str, ArgKind::Str]), Ok(false));
    assert_eq!(download_args(&[ArgKind::Str, ArgKind::Str, ArgKind::Table]), Ok(true));
    assert_eq!(download_args(&[ArgKind::Str, ArgKind::Str, ArgKind::Other]), Ok(false));
    assert_eq!(
        download_args(&[ArgKind::Table]),
        Err("http.download: first arg must be url string".to_string())
    );
    assert_eq!(
        download_args(&[ArgKind::Str]),
        Err("http.download: second arg must be dest path string".to_string())
    );
}

#[test]
fn the_cap_defaults_to_one_gibibyte() {
    assert_eq!(DEFAULT_MAX_SIZE, 1024 * 1024 * 1024);
    assert_eq!(max_size_of(None), 1024 * 1024 * 1024);
    assert_eq!(max_size_of(Some(0)), 0);
}

#[test]
fn a_body_past_a_positive_cap_is_refused() {
    assert_eq!(count_chunk(0, 10, 10, "http://x/f"), Ok(10));
    assert_eq!(
        count_chunk(8, 5, 10, "http://x/f"),
        Err("http.download: response exceeds max_size (13 > 10 bytes) for http://x/f".to_string())
    );
    assert_eq!(count_chunk(8, 5, 0, "http://x/f"), Ok(13));
    assert_eq!(count_chunk(8, 5, -1, "http://x/f"), Ok(13));
}

#[test]
fn the_temporary_file_sits_beside_the_target() {
    assert_eq!(temp_path("/tmp/a.tar", 255), "/tmp/a.tar.tmp.00000000000000ff");
    assert_eq!(temp_path("f", u64::MAX), "f.tmp.ffffffffffffffff");
    let fresh = fresh_temp_path("/tmp/a.tar").unwrap();
    assert!(fresh.starts_with("/tmp/a.tar.tmp."));
    assert_eq!(fresh.len(), "/tmp/a.tar.tmp.".len() + 16);
    assert!(fresh["/tmp/a.tar.tmp.".len()..].chars().all(|c| c.is_ascii_hexdigit() && !c.is_ascii_uppercase()));
}
