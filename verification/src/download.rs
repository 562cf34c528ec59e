//! What `http.download(url, path, opts?)` decides around the transfer: its
//! arguments, the size cap, and the temporary file the body goes to before
//! it is renamed into place.
//!
//! The cap defaults to 1 GiB so that a hostile URL cannot fill the disk; a
//! cap of 0 or less disables it. The temporary name ends in a random
//! number, not the process id, so that nobody can plant a link at it
//! beforehand.

use vstd::prelude::*;
use crate::crypto::{hex_lower, hex_digit, system_u64};
use crate::http_client::{ArgKind, kind_at};
use crate::text::{chars_of, string_of, string_from, push_str, push_chars, int_chars, int_dec};

verus! {

/// The size cap where the options give none: 1 GiB.
pub const DEFAULT_MAX_SIZE: i64 = 1073741824;

/// The refusal of the first argument when it is no string.
pub open spec fn url_refusal() -> Seq<char> {
    "http.download: first arg must be url string"@
}

/// The refusal of the second argument when it is no string.
pub open spec fn path_refusal() -> Seq<char> {
    "http.download: second arg must be dest path string"@
}

/// Whether the call's arguments are usable, and then whether its third
/// argument is an options table (anything else there is ignored).
pub fn download_args(kinds: &[ArgKind]) -> (r: Result<bool, String>)
    ensures
        kind_at(kinds@, 0) != ArgKind::Str ==> (r matches Err(e) && e@ == url_refusal()),
        kind_at(kinds@, 0) == ArgKind::Str && kind_at(kinds@, 1) != ArgKind::Str ==> (r matches Err(e) && e@
            == path_refusal()),
        kind_at(kinds@, 0) == ArgKind::Str && kind_at(kinds@, 1) == ArgKind::Str ==> r == Ok::<bool, String>(
            kind_at(kinds@, 2) == ArgKind::Table,
        ),
{
    let k0 = if kinds.len() > 0 { kinds[0] } else { ArgKind::Nil };
    if k0 != ArgKind::Str {
        return Err(string_from("http.download: first arg must be url string"));
    }
    let k1 = if kinds.len() > 1 { kinds[1] } else { ArgKind::Nil };
    if k1 != ArgKind::Str {
        return Err(string_from("http.download: second arg must be dest path string"));
    }
    let k2 = if kinds.len() > 2 { kinds[2] } else { ArgKind::Nil };
    Ok(k2 == ArgKind::Table)
}

/// The size cap: the options' `max_size` where it is an integer, else
/// `DEFAULT_MAX_SIZE`.
pub fn max_size_of(given: Option<i64>) -> (r: i64)
    ensures
        r == (match given {
            Some(n) => n,
            None => DEFAULT_MAX_SIZE,
        }),
{
    match given {
        Some(n) => n,
        None => DEFAULT_MAX_SIZE,
    }
}

/// The refusal of a body that grew past the cap.
pub open spec fn too_large(total: int, max_size: int, url: Seq<char>) -> Seq<char> {
    "http.download: response exceeds max_size ("@ + int_dec(total) + " > "@ + int_dec(max_size) + " bytes) for "@
        + url
}

/// Counts a received chunk: the new total, or the refusal once a positive
/// cap is exceeded.
pub fn count_chunk(total: i64, chunk_len: usize, max_size: i64, url: &str) -> (r: Result<i64, String>)
    requires
        0 <= total,
        total + chunk_len <= i64::MAX,
    ensures
        max_size > 0 && total + chunk_len > max_size ==> (r matches Err(e) && e@ == too_large(
            total + chunk_len,
            max_size as int,
            url@,
        )),
        !(max_size > 0 && total + chunk_len > max_size) ==> r == Ok::<i64, String>((total + chunk_len) as i64),
{
    let now = total + chunk_len as i64;
    if max_size > 0 && now > max_size {
        let mut v = chars_of("http.download: response exceeds max_size (");
        push_chars(&mut v, &int_chars(now));
        push_str(&mut v, " > ");
        push_chars(&mut v, &int_chars(max_size));
        push_str(&mut v, " bytes) for ");
        push_str(&mut v, url);
        proof {
            assert(v@ =~= too_large(total + chunk_len, max_size as int, url@));
        }
        return Err(string_of(&v));
    }
    Ok(now)
}

/// The `k` lowest hexadecimal digits of `n`, lower case, most significant
/// first, padded with zeros.
pub open spec fn hex_fixed(n: nat, k: nat) -> Seq<char>
    decreases k,
{
    if k == 0 {
        Seq::empty()
    } else {
        hex_fixed(n / 16, (k - 1) as nat).push(hex_lower(n % 16))
    }
}

fn hex_fixed_exec(n: u64, k: usize) -> (r: Vec<char>)
    ensures
        r@ == hex_fixed(n as nat, k as nat),
    decreases k,
{
    if k == 0 {
        Vec::new()
    } else {
        let mut v = hex_fixed_exec(n / 16, k - 1);
        v.push(hex_digit((n % 16) as u8));
        v
    }
}

/// The temporary file for a download to `path`: `<path>.tmp.` and the
/// number in 16 lower-case hexadecimal digits.
pub open spec fn temp_name(path: Seq<char>, nonce: u64) -> Seq<char> {
    path + ".tmp."@ + hex_fixed(nonce as nat, 16)
}

/// The temporary file for a download to `path` under a given number.
pub fn temp_path(path: &str, nonce: u64) -> (r: String)
    ensures
        r@ == temp_name(path@, nonce),
{
    let mut v = chars_of(path);
    push_str(&mut v, ".tmp.");
    push_chars(&mut v, &hex_fixed_exec(nonce, 16));
    proof {
        assert(v@ =~= temp_name(path@, nonce));
    }
    string_of(&v)
}

/// A fresh temporary file for a download to `path`, under a number drawn
/// from the system's random source; the source's failure is reported as
/// `http.download: random source: <error>`.
pub fn fresh_temp_path(path: &str) -> (r: Result<String, String>)
    ensures
        r matches Ok(t) ==> exists|nonce: u64| t@ == temp_name(path@, nonce),
        r matches Err(e) ==> e@.len() >= 30 && e@.take(30) == "http.download: random source: "@,
{
    match system_u64() {
        Ok(nonce) => Ok(temp_path(path, nonce)),
        Err(e) => {
            let mut m = chars_of("http.download: random source: ");
            let ghost p = m@;
            push_str(&mut m, e.as_str());
            proof {
                reveal_strlit("http.download: random source: ");
                assert(p.len() == 30);
                assert(m@.take(30) =~= p);
            }
            Err(string_of(&m))
        },
    }
}

} // verus!
