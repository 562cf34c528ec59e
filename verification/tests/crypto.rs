use assay::crypto::{
    compute_hmac_bytes, decode_jwt_segment, hash_hex, hex_lower_string, hmac, hmac_key_block,
    jwt_segments, random_token, segment_outcome, token_from_draws, xor_block, HashAlgorithm, Mac, TOKEN_CHARSET,
};

fn hex(bytes: &[u8]) -> String {
    bytes.iter().map(|b| format!("{b:02x}")).collect()
}

#[test]
fn sha256_of_abc_is_the_fips_vector() {
    assert_eq!(
        hash_hex("abc", None).unwrap(),
        "ba7816bf8f01cfea414140de5dae2223b00361a396177a9cb410ff61f20015ad"
    );
    assert_eq!(
        hash_hex("abc", Some("SHA256")).unwrap(),
        "ba7816bf8f01cfea414140de5dae2223b00361a396177a9cb410ff61f20015ad"
    );
}

#[test]
fn every_offered_hash_has_its_digest_length() {
    let cases = [
        ("sha224", 28),
        ("sha256", 32),
        ("sha384", 48),
        ("sha512", 64),
        ("sha3-224", 28),
        ("sha3-256", 32),
        ("sha3-384", 48),
        ("sha3-512", 64),
    ];
    for (name, len) in cases {
        let h = hash_hex("abc", Some(name)).unwrap();
        assert_eq!(h.len(), 2 * len, "{name}");
    }
    assert_eq!(
        hash_hex("abc", Some("sha224")).unwrap(),
        "23097d223405d8228642a477bda255b32aadbce4bda0b3f7e36c9da7"
    );
    assert_eq!(
        hash_hex("abc", Some("sha3-256")).unwrap(),
        "3a985da74fe225b2045c172d6bd390bd855f086e3e9d525b46bfe24511431532"
    );
}

#[test]
fn an_unknown_hash_is_refused_with_the_list() {
    assert_eq!(
        hash_hex("abc", Some("MD5")).unwrap_err(),
        "crypto.hash: unsupported algorithm: md5 (supported: sha224, sha256, sha384, sha512, sha3-224, sha3-256, sha3-384, sha3-512)"
    );
}

#[test]
fn hmac_sha256_matches_rfc_4231_case_1() {
    let key = [0x0bu8; 20];
    let mac = compute_hmac_bytes(&key, b"Hi There", "sha256").unwrap();
    assert_eq!(
        hex(&mac),
        "b0344c61d8db38535ca8afceaf0bf12b881dc200c9833da726e9376c2e32cff7"
    );
}

#[test]
fn hmac_sha256_matches_rfc_4231_case_2() {
    let mac = compute_hmac_bytes(b"Jefe", b"what do ya want for nothing?", "sha256").unwrap();
    assert_eq!(
        hex(&mac),
        "5bdcc146bf60754e6a042426089575c75a003f089d2739839dec58b964ec3843"
    );
}

#[test]
fn a_key_longer_than_a_block_is_hashed_first() {
    let key = [0xaau8; 131];
    let mac = compute_hmac_bytes(
        &key,
        b"Test Using Larger Than Block-Size Key - Hash Key First",
        "sha256",
    )
    .unwrap();
    assert_eq!(
        hex(&mac),
        "60e431591ee0b67f0d8a26aacbf5b77f8e0bc6213728c5140546040f0ee37f54"
    );
    let block = hmac_key_block(HashAlgorithm::Sha256, &key);
    assert_eq!(block.len(), 64);
    assert_eq!(&block[..32], HashAlgorithm::Sha256.digest(&key).as_slice());
    assert!(block[32..].iter().all(|b| *b == 0));
}

#[test]
fn hmac_sha512_matches_rfc_4231_case_2() {
    let mac = compute_hmac_bytes(b"Jefe", b"what do ya want for nothing?", "sha512").unwrap();
    assert_eq!(
        hex(&mac),
        "164b7a7bfcf819e2e395fbe73b56e0a387bd64222e831fd610270cd7ea2505549758bf75c05a994a6d034f65f8f0e6fdcaeab1a34d4a6b4b636e070a38bce737"
    );
}

#[test]
fn a_short_key_is_padded_with_zeros_and_xored_with_the_pads() {
    let block = hmac_key_block(HashAlgorithm::Sha3_512, b"k");
    assert_eq!(block.len(), 72);
    assert_eq!(block[0], b'k');
    assert!(block[1..].iter().all(|b| *b == 0));
    let inner = xor_block(&block, 0x36);
    assert_eq!(inner[0], b'k' ^ 0x36);
    assert_eq!(inner[1], 0x36);
    assert_eq!(HashAlgorithm::Sha3_512.block_size(), 72);
}

#[test]
fn hmac_is_raw_or_hex_as_asked() {
    let raw = hmac(b"Jefe", b"what do ya want for nothing?", None, true).unwrap();
    let hexed = hmac(b"Jefe", b"what do ya want for nothing?", Some("SHA256"), false).unwrap();
    match (raw, hexed) {
        (Mac::Raw(bytes), Mac::Hex(text)) => {
            assert_eq!(hex_lower_string(&bytes), text);
            assert_eq!(
                text,
                "5bdcc146bf60754e6a042426089575c75a003f089d2739839dec58b964ec3843"
            );
        }
        other => panic!("unexpected {other:?}"),
    }
}

#[test]
fn an_unknown_hmac_algorithm_is_refused() {
    assert_eq!(
        compute_hmac_bytes(b"k", b"d", "md5").unwrap_err(),
        "unsupported algorithm: md5"
    );
    assert_eq!(
        hmac(b"k", b"d", Some("md5"), false).unwrap_err(),
        "crypto.hmac: unsupported algorithm: md5 (supported: sha224, sha256, sha384, sha512, sha3-224, sha3-256, sha3-384, sha3-512)"
    );
}

#[test]
fn hex_is_two_lower_case_digits_per_byte() {
    assert_eq!(hex_lower_string(&[0x00, 0x0f, 0xa0, 0xff]), "000fa0ff");
    assert_eq!(hex_lower_string(&[]), "");
}

#[test]
fn random_tokens_have_the_asked_length_and_alphabet() {
    let t = random_token(None).unwrap();
    assert_eq!(t.chars().count(), 32);
    assert!(t.chars().all(|c| TOKEN_CHARSET.contains(c)));
    let t = random_token(Some(5)).unwrap();
    assert_eq!(t.len(), 5);
    assert_eq!(
        random_token(Some(0)).unwrap_err(),
        "crypto.random: length must be positive, got 0"
    );
    assert_eq!(
        random_token(Some(-3)).unwrap_err(),
        "crypto.random: length must be positive, got -3"
    );
}

#[test]
fn a_jwt_is_cut_into_three_segments() {
    let (h, p) = jwt_segments("eyJhbGciOiJIUzI1NiJ9.eyJzdWIiOiIxIn0.sig").unwrap();
    assert_eq!(h, "eyJhbGciOiJIUzI1NiJ9");
    assert_eq!(p, "eyJzdWIiOiIxIn0");
    assert_eq!(
        jwt_segments("a.b").unwrap_err(),
        "crypto.jwt_decode: token must have three '.'-separated segments (header.payload.signature)"
    );
    assert!(jwt_segments("a.b.c.d").is_err());
}

#[test]
fn jwt_segments_decode_as_unpadded_base64url() {
    assert_eq!(
        decode_jwt_segment("eyJhbGciOiJIUzI1NiJ9", "header").unwrap(),
        br#"{"alg":"HS256"}"#.to_vec()
    );
    let err = decode_jwt_segment("e$", "payload").unwrap_err();
    assert!(err.starts_with("crypto.jwt_decode: payload: invalid base64url: "), "{err}");
    assert_eq!(
        segment_outcome("header", Err("bad".to_string())).unwrap_err(),
        "crypto.jwt_decode: header: invalid base64url: bad"
    );
    assert_eq!(segment_outcome("header", Ok(vec![1, 2])).unwrap(), vec![1, 2]);
}

#[test]
fn each_draw_picks_its_character_of_the_set() {
    assert_eq!(token_from_draws(&[0, 25, 26, 51, 52, 61]), "azAZ09");
    assert_eq!(token_from_draws(&[]), "");
}

#[test]
fn two_tokens_differ() {
    assert_ne!(random_token(None).unwrap(), random_token(None).unwrap());
}
