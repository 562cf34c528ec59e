//! Hashes, HMAC and random tokens: which algorithm a name selects, the
//! HMAC construction of RFC 2104 over the selected hash, hex output, the
//! random tokens the scripting layer hands out, and the segments of a JWT.

use vstd::prelude::*;
use sha2::Digest;
use rand::TryRng;
use crate::text::{chars_of, string_of, push_chars, push_str, chars_eq, unicode_lower, to_lowercase,
    pieces, split_all, int_dec, int_chars};

verus! {

/// The hash functions the library offers.
#[derive(Debug, Clone, Copy, PartialEq, Eq)]
pub enum HashAlgorithm {
    Sha224,
    Sha256,
    Sha384,
    Sha512,
    Sha3_224,
    Sha3_256,
    Sha3_384,
    Sha3_512,
}

/// The algorithm a (lower-case) name selects.
pub open spec fn algorithm_named(n: Seq<char>) -> Option<HashAlgorithm> {
    if n == "sha224"@ {
        Some(HashAlgorithm::Sha224)
    } else if n == "sha256"@ {
        Some(HashAlgorithm::Sha256)
    } else if n == "sha384"@ {
        Some(HashAlgorithm::Sha384)
    } else if n == "sha512"@ {
        Some(HashAlgorithm::Sha512)
    } else if n == "sha3-224"@ {
        Some(HashAlgorithm::Sha3_224)
    } else if n == "sha3-256"@ {
        Some(HashAlgorithm::Sha3_256)
    } else if n == "sha3-384"@ {
        Some(HashAlgorithm::Sha3_384)
    } else if n == "sha3-512"@ {
        Some(HashAlgorithm::Sha3_512)
    } else {
        None
    }
}

/// The block size, in bytes, that HMAC pads the key to.
pub open spec fn block_size_of(a: HashAlgorithm) -> nat {
    match a {
        HashAlgorithm::Sha224 | HashAlgorithm::Sha256 => 64,
        HashAlgorithm::Sha384 | HashAlgorithm::Sha512 => 128,
        HashAlgorithm::Sha3_224 => 144,
        HashAlgorithm::Sha3_256 => 136,
        HashAlgorithm::Sha3_384 => 104,
        HashAlgorithm::Sha3_512 => 72,
    }
}

/// The length of a digest, in bytes.
pub open spec fn digest_len(a: HashAlgorithm) -> nat {
    match a {
        HashAlgorithm::Sha224 | HashAlgorithm::Sha3_224 => 28,
        HashAlgorithm::Sha256 | HashAlgorithm::Sha3_256 => 32,
        HashAlgorithm::Sha384 | HashAlgorithm::Sha3_384 => 48,
        HashAlgorithm::Sha512 | HashAlgorithm::Sha3_512 => 64,
    }
}

/// The SHA-224 digest of a byte string (FIPS 180-4).
pub uninterp spec fn sha224_spec(data: Seq<u8>) -> Seq<u8>;

/// The SHA-256 digest of a byte string (FIPS 180-4).
pub uninterp spec fn sha256_spec(data: Seq<u8>) -> Seq<u8>;

/// The SHA-384 digest of a byte string (FIPS 180-4).
pub uninterp spec fn sha384_spec(data: Seq<u8>) -> Seq<u8>;

/// The SHA-512 digest of a byte string (FIPS 180-4).
pub uninterp spec fn sha512_spec(data: Seq<u8>) -> Seq<u8>;

/// The SHA3-224 digest of a byte string (FIPS 202).
pub uninterp spec fn sha3_224_spec(data: Seq<u8>) -> Seq<u8>;

/// The SHA3-256 digest of a byte string (FIPS 202).
pub uninterp spec fn sha3_256_spec(data: Seq<u8>) -> Seq<u8>;

/// The SHA3-384 digest of a byte string (FIPS 202).
pub uninterp spec fn sha3_384_spec(data: Seq<u8>) -> Seq<u8>;

/// The SHA3-512 digest of a byte string (FIPS 202).
pub uninterp spec fn sha3_512_spec(data: Seq<u8>) -> Seq<u8>;

/// `sha2::Sha224::digest`: the digest of the bytes, 28 bytes long.
#[verifier::external_body]
fn sha224_digest(data: &[u8]) -> (r: Vec<u8>)
    ensures
        r@ == sha224_spec(data@),
        r@.len() == 28,
{
    sha2::Sha224::digest(data).to_vec()
}

/// `sha2::Sha256::digest`: the digest of the bytes, 32 bytes long.
#[verifier::external_body]
pub(crate) fn sha256_digest(data: &[u8]) -> (r: Vec<u8>)
    ensures
        r@ == sha256_spec(data@),
        r@.len() == 32,
{
    sha2::Sha256::digest(data).to_vec()
}

/// `sha2::Sha384::digest`: the digest of the bytes, 48 bytes long.
#[verifier::external_body]
fn sha384_digest(data: &[u8]) -> (r: Vec<u8>)
    ensures
        r@ == sha384_spec(data@),
        r@.len() == 48,
{
    sha2::Sha384::digest(data).to_vec()
}

/// `sha2::Sha512::digest`: the digest of the bytes, 64 bytes long.
#[verifier::external_body]
fn sha512_digest(data: &[u8]) -> (r: Vec<u8>)
    ensures
        r@ == sha512_spec(data@),
        r@.len() == 64,
{
    sha2::Sha512::digest(data).to_vec()
}

/// `sha3::Sha3_224::digest`: the digest of the bytes, 28 bytes long.
#[verifier::external_body]
fn sha3_224_digest(data: &[u8]) -> (r: Vec<u8>)
    ensures
        r@ == sha3_224_spec(data@),
        r@.len() == 28,
{
    sha3::Sha3_224::digest(data).to_vec()
}

/// `sha3::Sha3_256::digest`: the digest of the bytes, 32 bytes long.
#[verifier::external_body]
fn sha3_256_digest(data: &[u8]) -> (r: Vec<u8>)
    ensures
        r@ == sha3_256_spec(data@),
        r@.len() == 32,
{
    sha3::Sha3_256::digest(data).to_vec()
}

/// `sha3::Sha3_384::digest`: the digest of the bytes, 48 bytes long.
#[verifier::external_body]
fn sha3_384_digest(data: &[u8]) -> (r: Vec<u8>)
    ensures
        r@ == sha3_384_spec(data@),
        r@.len() == 48,
{
    sha3::Sha3_384::digest(data).to_vec()
}

/// `sha3::Sha3_512::digest`: the digest of the bytes, 64 bytes long.
#[verifier::external_body]
fn sha3_512_digest(data: &[u8]) -> (r: Vec<u8>)
    ensures
        r@ == sha3_512_spec(data@),
        r@.len() == 64,
{
    sha3::Sha3_512::digest(data).to_vec()
}

/// The digest of `data` under algorithm `a`.
pub open spec fn digest_spec(a: HashAlgorithm, data: Seq<u8>) -> Seq<u8> {
    match a {
        HashAlgorithm::Sha224 => sha224_spec(data),
        HashAlgorithm::Sha256 => sha256_spec(data),
        HashAlgorithm::Sha384 => sha384_spec(data),
        HashAlgorithm::Sha512 => sha512_spec(data),
        HashAlgorithm::Sha3_224 => sha3_224_spec(data),
        HashAlgorithm::Sha3_256 => sha3_256_spec(data),
        HashAlgorithm::Sha3_384 => sha3_384_spec(data),
        HashAlgorithm::Sha3_512 => sha3_512_spec(data),
    }
}

impl HashAlgorithm {
    /// The algorithm a lower-case name selects: `sha224`, `sha256`,
    /// `sha384`, `sha512`, `sha3-224`, `sha3-256`, `sha3-384` or `sha3-512`.
    pub fn from_name(name: &str) -> (r: Option<HashAlgorithm>)
        ensures
            r == algorithm_named(name@),
    {
        let n = chars_of(name);
        if chars_eq(&n, &chars_of("sha224")) {
            Some(HashAlgorithm::Sha224)
        } else if chars_eq(&n, &chars_of("sha256")) {
            Some(HashAlgorithm::Sha256)
        } else if chars_eq(&n, &chars_of("sha384")) {
            Some(HashAlgorithm::Sha384)
        } else if chars_eq(&n, &chars_of("sha512")) {
            Some(HashAlgorithm::Sha512)
        } else if chars_eq(&n, &chars_of("sha3-224")) {
            Some(HashAlgorithm::Sha3_224)
        } else if chars_eq(&n, &chars_of("sha3-256")) {
            Some(HashAlgorithm::Sha3_256)
        } else if chars_eq(&n, &chars_of("sha3-384")) {
            Some(HashAlgorithm::Sha3_384)
        } else if chars_eq(&n, &chars_of("sha3-512")) {
            Some(HashAlgorithm::Sha3_512)
        } else {
            None
        }
    }

    /// The block size, in bytes.
    pub fn block_size(&self) -> (r: usize)
        ensures
            r == block_size_of(*self),
    {
        match self {
            HashAlgorithm::Sha224 | HashAlgorithm::Sha256 => 64,
            HashAlgorithm::Sha384 | HashAlgorithm::Sha512 => 128,
            HashAlgorithm::Sha3_224 => 144,
            HashAlgorithm::Sha3_256 => 136,
            HashAlgorithm::Sha3_384 => 104,
            HashAlgorithm::Sha3_512 => 72,
        }
    }

    /// The digest of `data`.
    pub fn digest(&self, data: &[u8]) -> (r: Vec<u8>)
        ensures
            r@ == digest_spec(*self, data@),
            r@.len() == digest_len(*self),
    {
        match self {
            HashAlgorithm::Sha224 => sha224_digest(data),
            HashAlgorithm::Sha256 => sha256_digest(data),
            HashAlgorithm::Sha384 => sha384_digest(data),
            HashAlgorithm::Sha512 => sha512_digest(data),
            HashAlgorithm::Sha3_224 => sha3_224_digest(data),
            HashAlgorithm::Sha3_256 => sha3_256_digest(data),
            HashAlgorithm::Sha3_384 => sha3_384_digest(data),
            HashAlgorithm::Sha3_512 => sha3_512_digest(data),
        }
    }
}

/// The key HMAC works with: the key itself, or its digest where it is
/// longer than a block, then zeros up to the block size.
pub open spec fn hmac_key(a: HashAlgorithm, key: Seq<u8>) -> Seq<u8> {
    let k = if key.len() > block_size_of(a) {
        digest_spec(a, key)
    } else {
        key
    };
    k + Seq::new((block_size_of(a) - k.len()) as nat, |i: int| 0u8)
}

/// Each byte of `k` XORed with `pad`.
pub open spec fn xor_pad(k: Seq<u8>, pad: u8) -> Seq<u8> {
    Seq::new(k.len(), |i: int| pad ^ k[i])
}

/// HMAC (RFC 2104): `H((K' ^ opad) || H((K' ^ ipad) || data))`, with
/// `ipad` the byte 0x36 and `opad` the byte 0x5c repeated over a block.
pub open spec fn hmac_spec(a: HashAlgorithm, key: Seq<u8>, data: Seq<u8>) -> Seq<u8> {
    let k = hmac_key(a, key);
    digest_spec(a, xor_pad(k, 0x5cu8) + digest_spec(a, xor_pad(k, 0x36u8) + data))
}

fn copy_bytes(a: &[u8]) -> (r: Vec<u8>)
    ensures
        r@ == a@,
{
    let mut r: Vec<u8> = Vec::new();
    let mut i: usize = 0;
    while i < a.len()
        invariant
            i <= a.len(),
            r@ == a@.take(i as int),
        decreases a.len() - i,
    {
        r.push(a[i]);
        i += 1;
        assert(r@ =~= a@.take(i as int));
    }
    assert(a@.take(a.len() as int) =~= a@);
    r
}

fn append_bytes(v: &mut Vec<u8>, b: &[u8])
    ensures
        final(v)@ == old(v)@ + b@,
{
    let ghost start = v@;
    let mut i: usize = 0;
    while i < b.len()
        invariant
            i <= b.len(),
            v@ == start + b@.take(i as int),
        decreases b.len() - i,
    {
        v.push(b[i]);
        i += 1;
        assert(v@ =~= start + b@.take(i as int));
    }
    assert(b@.take(b.len() as int) =~= b@);
}

/// The key HMAC works with, one block long.
pub fn hmac_key_block(a: HashAlgorithm, key: &[u8]) -> (r: Vec<u8>)
    ensures
        r@ == hmac_key(a, key@),
        r@.len() == block_size_of(a),
{
    let bs = a.block_size();
    let mut k: Vec<u8> = if key.len() > bs {
        a.digest(key)
    } else {
        copy_bytes(key)
    };
    let ghost kp = k@;
    assert(digest_len(a) <= block_size_of(a));
    assert(kp.len() <= bs);
    while k.len() < bs
        invariant
            kp.len() <= k@.len() <= bs,
            bs == block_size_of(a),
            k@ == kp + Seq::new((k@.len() - kp.len()) as nat, |i: int| 0u8),
        decreases bs - k.len(),
    {
        k.push(0u8);
        assert(k@ =~= kp + Seq::new((k@.len() - kp.len()) as nat, |i: int| 0u8));
    }
    k
}

/// Each byte of `k` XORed with `pad`.
pub fn xor_block(k: &[u8], pad: u8) -> (r: Vec<u8>)
    ensures
        r@ == xor_pad(k@, pad),
{
    let mut r: Vec<u8> = Vec::new();
    let mut i: usize = 0;
    while i < k.len()
        invariant
            i <= k.len(),
            r@ == xor_pad(k@.take(i as int), pad),
        decreases k.len() - i,
    {
        r.push(pad ^ k[i]);
        i += 1;
        assert(r@ =~= xor_pad(k@.take(i as int), pad));
    }
    assert(k@.take(k.len() as int) =~= k@);
    r
}

/// The HMAC of `data` under `key` with algorithm `a`.
pub fn hmac_with(a: HashAlgorithm, key: &[u8], data: &[u8]) -> (r: Vec<u8>)
    ensures
        r@ == hmac_spec(a, key@, data@),
        r@.len() == digest_len(a),
{
    let k = hmac_key_block(a, key);
    let mut inner = xor_block(&k, 0x36u8);
    append_bytes(&mut inner, data);
    let inner_hash = a.digest(&inner);
    let mut outer = xor_block(&k, 0x5cu8);
    append_bytes(&mut outer, &inner_hash);
    a.digest(&outer)
}

/// The refusal of an algorithm name the library does not offer.
pub open spec fn msg_unsupported(name: Seq<char>) -> Seq<char> {
    "unsupported algorithm: "@ + name
}

/// The HMAC of `data` under `key` with the algorithm `algorithm` names;
/// an error for a name that selects none.
pub fn compute_hmac_bytes(key: &[u8], data: &[u8], algorithm: &str) -> (r: Result<Vec<u8>, String>)
    ensures
        match algorithm_named(algorithm@) {
            Some(a) => r matches Ok(v) && v@ == hmac_spec(a, key@, data@),
            None => r matches Err(e) && e@ == msg_unsupported(algorithm@),
        },
{
    match HashAlgorithm::from_name(algorithm) {
        Some(a) => Ok(hmac_with(a, key, data)),
        None => {
            let mut m = chars_of("unsupported algorithm: ");
            push_str(&mut m, algorithm);
            Err(string_of(&m))
        },
    }
}

/// The lower-case hexadecimal digit of a value below 16.
pub open spec fn hex_lower(d: nat) -> char {
    if d < 10 {
        ((d + 48) as u8) as char
    } else {
        ((d + 87) as u8) as char
    }
}

/// Bytes in lower-case hexadecimal, two digits per byte, high digit first.
pub open spec fn hex_lower_bytes(bs: Seq<u8>) -> Seq<char>
    decreases bs.len(),
{
    if bs.len() == 0 {
        Seq::empty()
    } else {
        hex_lower_bytes(bs.drop_last()) + seq![
            hex_lower((bs.last() / 16) as nat),
            hex_lower((bs.last() % 16) as nat),
        ]
    }
}

pub(crate) fn hex_digit(d: u8) -> (c: char)
    requires
        d < 16,
    ensures
        c == hex_lower(d as nat),
{
    if d < 10 {
        (d + 48) as char
    } else {
        (d + 87) as char
    }
}

/// Bytes in lower-case hexadecimal, as `{:02x}` writes each of them.
pub fn hex_lower_string(bytes: &[u8]) -> (r: String)
    ensures
        r@ == hex_lower_bytes(bytes@),
{
    let mut out: Vec<char> = Vec::new();
    let mut i: usize = 0;
    while i < bytes.len()
        invariant
            i <= bytes.len(),
            out@ == hex_lower_bytes(bytes@.take(i as int)),
        decreases bytes.len() - i,
    {
        let b = bytes[i];
        out.push(hex_digit(b / 16));
        out.push(hex_digit(b % 16));
        proof {
            let t = bytes@.take(i + 1);
            assert(t.drop_last() =~= bytes@.take(i as int));
            assert(t.last() == b);
        }
        i += 1;
        assert(out@ =~= hex_lower_bytes(bytes@.take(i as int)));
    }
    assert(bytes@.take(bytes.len() as int) =~= bytes@);
    string_of(&out)
}

/// The names of the algorithms on offer, as the refusals list them.
pub open spec fn supported_list() -> Seq<char> {
    " (supported: sha224, sha256, sha384, sha512, sha3-224, sha3-256, sha3-384, sha3-512)"@
}

/// The algorithm name a caller asked for: the name given, lower-cased, or
/// `sha256` where none was given.
pub open spec fn requested_name(a: Option<Seq<char>>) -> Seq<char> {
    match a {
        Some(s) => unicode_lower(s),
        None => "sha256"@,
    }
}

/// A text that may be absent, by its characters.
pub open spec fn opt_str(o: Option<&str>) -> Option<Seq<char>> {
    match o {
        Some(s) => Some(s@),
        None => None,
    }
}

fn requested(algorithm: Option<&str>) -> (r: String)
    ensures
        r@ == requested_name(opt_str(algorithm)),
{
    match algorithm {
        Some(s) => to_lowercase(s),
        None => string_of(&chars_of("sha256")),
    }
}

/// The hash of a text's UTF-8 bytes in lower-case hex, under the named
/// algorithm (`sha256` where none is named); an error naming the
/// algorithms on offer where the name selects none.
pub fn hash_hex(input: &str, algorithm: Option<&str>) -> (r: Result<String, String>)
    ensures
        match algorithm_named(requested_name(opt_str(algorithm))) {
            Some(a) => r matches Ok(h) && h@ == hex_lower_bytes(
                digest_spec(a, vstd::utf8::encode_utf8(input@)),
            ),
            None => r matches Err(e) && e@ == "crypto.hash: "@ + msg_unsupported(
                requested_name(opt_str(algorithm)),
            ) + supported_list(),
        },
{
    let name = requested(algorithm);
    match HashAlgorithm::from_name(name.as_str()) {
        Some(a) => {
            let d = a.digest(input.as_bytes());
            Ok(hex_lower_string(&d))
        },
        None => {
            let mut m = chars_of("crypto.hash: ");
            push_str(&mut m, "unsupported algorithm: ");
            push_str(&mut m, name.as_str());
            push_str(&mut m, " (supported: sha224, sha256, sha384, sha512, sha3-224, sha3-256, sha3-384, sha3-512)");
            Err(string_of(&m))
        },
    }
}

/// An HMAC as the caller asked for it: the raw bytes, or lower-case hex.
#[derive(Debug, Clone, PartialEq, Eq)]
pub enum Mac {
    Raw(Vec<u8>),
    Hex(String),
}

/// The HMAC of `data` under `key` with the named algorithm (`sha256`
/// where none is named), raw or in hex; an error naming the algorithms on
/// offer where the name selects none.
pub fn hmac(key: &[u8], data: &[u8], algorithm: Option<&str>, raw: bool) -> (r: Result<Mac, String>)
    ensures
        match algorithm_named(requested_name(opt_str(algorithm))) {
            Some(a) => if raw {
                r matches Ok(Mac::Raw(v)) && v@ == hmac_spec(a, key@, data@)
            } else {
                r matches Ok(Mac::Hex(h)) && h@ == hex_lower_bytes(hmac_spec(a, key@, data@))
            },
            None => r matches Err(e) && e@ == "crypto.hmac: "@ + msg_unsupported(
                requested_name(opt_str(algorithm)),
            ) + supported_list(),
        },
{
    let name = requested(algorithm);
    match compute_hmac_bytes(key, data, name.as_str()) {
        Ok(bytes) => if raw {
            Ok(Mac::Raw(bytes))
        } else {
            Ok(Mac::Hex(hex_lower_string(&bytes)))
        },
        Err(e) => {
            let mut m = chars_of("crypto.hmac: ");
            push_str(&mut m, e.as_str());
            push_str(&mut m, " (supported: sha224, sha256, sha384, sha512, sha3-224, sha3-256, sha3-384, sha3-512)");
            Err(string_of(&m))
        },
    }
}

/// The characters a random token is drawn from.
pub const TOKEN_CHARSET: &'static str = "abcdefghijklmnopqrstuvwxyzABCDEFGHIJKLMNOPQRSTUVWXYZ0123456789";

/// The length of a token where none is asked for.
pub const DEFAULT_TOKEN_LEN: usize = 32;

/// `rand::rngs::SysRng.try_next_u64()`: a number drawn from the operating
/// system's random source, or the text of the error it reports (the source
/// can fail, for instance before the system has gathered entropy). Which
/// number is left to chance, so nothing is promised of it.
#[verifier::external_body]
pub(crate) fn system_u64() -> (r: Result<u64, String>) {
    rand::rngs::SysRng.try_next_u64().map_err(|e| e.to_string())
}

/// The token length a caller asked for: `DEFAULT_TOKEN_LEN` where none
/// was given, the number where it is positive, else an error.
pub open spec fn token_len(length: Option<i64>) -> Result<usize, Seq<char>> {
    match length {
        None => Ok(DEFAULT_TOKEN_LEN),
        Some(n) => if n > 0 {
            Ok(n as usize)
        } else {
            Err("crypto.random: length must be positive, got "@ + int_dec(n as int))
        },
    }
}

/// The number of characters a token is drawn from.
pub const TOKEN_CHARSET_LEN: usize = 62;

/// The token that a sequence of draws spells: each draw picks the
/// character of `TOKEN_CHARSET` at that position.
pub open spec fn token_of(draws: Seq<usize>) -> Seq<char> {
    draws.map_values(|k: usize| TOKEN_CHARSET@[k as int])
}

/// The position in `TOKEN_CHARSET` that a random number picks: the number
/// modulo the size of the set.
pub open spec fn pick(word: u64) -> usize {
    (word % (TOKEN_CHARSET_LEN as u64)) as usize
}

/// The token that the given draws spell, each draw a position in
/// `TOKEN_CHARSET`.
pub fn token_from_draws(draws: &[usize]) -> (r: String)
    requires
        forall|i: int| 0 <= i < draws@.len() ==> #[trigger] draws@[i] < TOKEN_CHARSET_LEN,
    ensures
        r@ == token_of(draws@),
{
    let cs = chars_of(TOKEN_CHARSET);
    proof {
        reveal_strlit("abcdefghijklmnopqrstuvwxyzABCDEFGHIJKLMNOPQRSTUVWXYZ0123456789");
    }
    assert(cs@.len() == 62);
    let mut out: Vec<char> = Vec::new();
    let mut i: usize = 0;
    while i < draws.len()
        invariant
            i <= draws@.len(),
            cs@ == TOKEN_CHARSET@,
            cs@.len() == 62,
            forall|j: int| 0 <= j < draws@.len() ==> #[trigger] draws@[j] < TOKEN_CHARSET_LEN,
            out@ == token_of(draws@.take(i as int)),
        decreases draws@.len() - i,
    {
        let k = draws[i];
        out.push(cs[k]);
        i += 1;
        assert(out@ =~= token_of(draws@.take(i as int)));
    }
    assert(draws@.take(i as int) =~= draws@);
    string_of(&out)
}

/// Whether an error is the random source's failure, reported by
/// `crypto.random`.
pub open spec fn is_source_failure(e: Seq<char>) -> bool {
    e.len() >= 15 && e.take(15) == "crypto.random: "@
}

/// The largest multiple of the set's size that a `u64` can hold plus one:
/// numbers below it fall evenly on the 62 positions (each position is the
/// remainder of exactly as many of them), so a number drawn below it picks
/// every character with the same chance.
pub const ACCEPT_LIMIT: u64 = 18446744073709551600;

/// How many numbers a draw takes from the random source, at most, before it
/// gives up on finding one below `ACCEPT_LIMIT` (each is above it with a
/// chance of 16 in 2^64).
pub const MAX_DRAWS: usize = 16;

/// Whether a drawn number is one that picks uniformly: it is below
/// `ACCEPT_LIMIT`.
pub open spec fn accepted(w: u64) -> bool {
    w < ACCEPT_LIMIT
}

/// The numbers a token draw accepts are a whole number of rounds of the 62
/// positions, and as many as a `u64` allows: so each character of
/// `TOKEN_CHARSET` is the pick of exactly `ACCEPT_LIMIT / 62` of them.
pub proof fn law_accepted_numbers_spread_evenly()
    ensures
        ACCEPT_LIMIT as int % (TOKEN_CHARSET_LEN as int) == 0,
        ACCEPT_LIMIT as int + (TOKEN_CHARSET_LEN as int) > u64::MAX as int + 1,
{
}

fn source_failure(detail: &str) -> (r: String)
    ensures
        is_source_failure(r@),
{
    let mut m = chars_of("crypto.random: ");
    let ghost p = m@;
    push_str(&mut m, detail);
    proof {
        reveal_strlit("crypto.random: ");
        assert(m@.take(15) =~= p);
    }
    string_of(&m)
}

/// One number from the random source that picks uniformly: numbers at or
/// above `ACCEPT_LIMIT` are drawn again, up to `MAX_DRAWS` numbers in all.
fn draw_accepted() -> (r: Result<u64, String>)
    ensures
        r matches Ok(w) ==> accepted(w),
        r matches Err(e) ==> is_source_failure(e@),
{
    let mut tries: usize = 0;
    while tries < MAX_DRAWS
        decreases MAX_DRAWS - tries,
    {
        match system_u64() {
            Ok(w) => {
                if w < ACCEPT_LIMIT {
                    return Ok(w);
                }
            },
            Err(e) => {
                return Err(source_failure(e.as_str()));
            },
        }
        tries += 1;
    }
    Err(source_failure("no number below the uniform limit"))
}

/// A random token of the asked length: for each character one number is
/// drawn from the system's random source, below `ACCEPT_LIMIT` so that every
/// character of `TOKEN_CHARSET` is equally likely, and picks the character
/// at its remainder by the set's size. An error where the length asked for
/// is not positive, or where the random source fails.
pub fn random_token(length: Option<i64>) -> (r: Result<String, String>)
    ensures
        match token_len(length) {
            Ok(n) => match r {
                Ok(s) => exists|words: Seq<u64>|
                    #![trigger words.len()]
                    words.len() == n && (forall|j: int| 0 <= j < words.len() ==> accepted(#[trigger] words[j]))
                        && s@ == token_of(words.map_values(|w: u64| pick(w))),
                Err(e) => is_source_failure(e@),
            },
            Err(m) => r matches Err(e) && e@ == m,
        },
{
    let n: usize = match length {
        None => DEFAULT_TOKEN_LEN,
        Some(k) => if k > 0 {
            k as usize
        } else {
            let mut m = chars_of("crypto.random: length must be positive, got ");
            let d = int_chars(k);
            push_chars(&mut m, &d);
            return Err(string_of(&m));
        },
    };
    let mut words: Vec<u64> = Vec::new();
    let mut draws: Vec<usize> = Vec::new();
    let mut i: usize = 0;
    while i < n
        invariant
            i <= n,
            words@.len() == i,
            forall|j: int| 0 <= j < words@.len() ==> accepted(#[trigger] words@[j]),
            draws@ == words@.map_values(|w: u64| pick(w)),
            token_len(length) == Ok::<usize, Seq<char>>(n),
        decreases n - i,
    {
        match draw_accepted() {
            Ok(w) => {
                words.push(w);
                draws.push((w % 62) as usize);
                assert(draws@ =~= words@.map_values(|w: u64| pick(w)));
            },
            Err(e) => {
                return Err(e);
            },
        }
        i += 1;
    }
    assert forall|j: int| 0 <= j < draws@.len() implies #[trigger] draws@[j] < TOKEN_CHARSET_LEN by {
        assert(draws@[j] == pick(words@[j]));
    }
    let t = token_from_draws(&draws);
    assert(words@.len() == n);
    Ok(t)
}

/// `data_encoding::BASE64URL_NOPAD.decode` (RFC 4648, URL alphabet, no
/// padding): the bytes encoded, or the text of the error.
pub uninterp spec fn base64url_nopad_decode(s: Seq<u8>) -> Result<Seq<u8>, Seq<char>>;

/// `data_encoding::BASE64URL_NOPAD.decode`, its error given by its text.
#[verifier::external_body]
fn base64url_decode(s: &[u8]) -> (r: Result<Vec<u8>, String>)
    ensures
        match (r, base64url_nopad_decode(s@)) {
            (Ok(v), Ok(w)) => v@ == w,
            (Err(e), Err(m)) => e@ == m,
            _ => false,
        },
{
    data_encoding::BASE64URL_NOPAD.decode(s).map_err(|e| e.to_string())
}

/// The refusal of a token that is not three segments.
pub open spec fn msg_not_three_segments() -> Seq<char> {
    "crypto.jwt_decode: token must have three '.'-separated segments (header.payload.signature)"@
}

/// The header and payload segments of a JWT: its `.`-separated pieces,
/// of which there must be three.
pub fn jwt_segments(token: &str) -> (r: Result<(String, String), String>)
    ensures
        pieces(token@, '.').len() == 3 ==> (r matches Ok((h, p)) && h@ == pieces(token@, '.')[0] && p@
            == pieces(token@, '.')[1]),
        pieces(token@, '.').len() != 3 ==> (r matches Err(e) && e@ == msg_not_three_segments()),
{
    let t = chars_of(token);
    let parts = split_all(&t, '.');
    if parts.len() != 3 {
        return Err(string_of(&chars_of(
            "crypto.jwt_decode: token must have three '.'-separated segments (header.payload.signature)",
        )));
    }
    assert(parts@[0]@ == pieces(token@, '.')[0]);
    assert(parts@[1]@ == pieces(token@, '.')[1]);
    Ok((string_of(&parts[0]), string_of(&parts[1])))
}

/// What a decoded segment comes to: its bytes, or the refusal naming the
/// segment and what the decoder said.
pub open spec fn segment_outcome_spec(label: Seq<char>, decoded: Result<Seq<u8>, Seq<char>>) -> Result<
    Seq<u8>,
    Seq<char>,
> {
    match decoded {
        Ok(b) => Ok(b),
        Err(m) => Err("crypto.jwt_decode: "@ + label + ": invalid base64url: "@ + m),
    }
}

/// The bytes of a decoded segment, or the refusal naming the segment.
pub fn segment_outcome(label: &str, decoded: Result<Vec<u8>, String>) -> (r: Result<Vec<u8>, String>)
    ensures
        match (r, segment_outcome_spec(
            label@,
            match decoded {
                Ok(v) => Ok(v@),
                Err(e) => Err(e@),
            },
        )) {
            (Ok(v), Ok(w)) => v@ == w,
            (Err(e), Err(m)) => e@ == m,
            _ => false,
        },
{
    match decoded {
        Ok(v) => Ok(v),
        Err(e) => {
            let mut m = chars_of("crypto.jwt_decode: ");
            push_str(&mut m, label);
            push_str(&mut m, ": invalid base64url: ");
            push_str(&mut m, e.as_str());
            Err(string_of(&m))
        },
    }
}

/// The bytes a JWT segment encodes (unpadded base64url, RFC 7515), or the
/// refusal naming the segment.
pub fn decode_jwt_segment(segment: &str, label: &str) -> (r: Result<Vec<u8>, String>)
    ensures
        match (r, segment_outcome_spec(label@, base64url_nopad_decode(vstd::utf8::encode_utf8(segment@)))) {
            (Ok(v), Ok(w)) => v@ == w,
            (Err(e), Err(m)) => e@ == m,
            _ => false,
        },
{
    let decoded = base64url_decode(segment.as_bytes());
    segment_outcome(label, decoded)
}

/// Whether an algorithm is one of SHA-3 (Keccak) rather than SHA-2.
pub open spec fn is_sha3(a: HashAlgorithm) -> bool {
    a is Sha3_224 || a is Sha3_256 || a is Sha3_384 || a is Sha3_512
}

/// HMAC pads the key to the hash's own block: for SHA-2 that is 512 bits
/// for the functions with at most 256 bits of output (SHA-224, SHA-256)
/// and 1024 bits for the others (SHA-384, SHA-512, which share SHA-512's
/// compression); for SHA-3 it is the sponge's rate, 1600 bits less twice
/// the output (`hmac_key_block` returns a key block of exactly that length).
/// Every digest fits in a block.
pub proof fn law_hmac_block_is_the_hash_block(a: HashAlgorithm)
    ensures
        block_size_of(a) == (if is_sha3(a) {
            200 - 2 * digest_len(a)
        } else if digest_len(a) <= 32 {
            64
        } else {
            128
        }),
        digest_len(a) < block_size_of(a),
{
}

} // verus!
