//! Small decisions of the Lua builtins: a script's shebang, an archive's
//! compression, a database URL's kind, which HTTP verbs are gated, unit
//! name globs, the WebSocket handshake, and HTTP route lookup.

use vstd::prelude::*;
use sha1::Digest;
use crate::text::{
    lower, has_prefix, has_suffix, contains_seq, next_char, chars_of, string_of, lower_chars,
    starts_with, ends_with, contains_chars, chars_eq, find_char, trim, trim_chars, unicode_lower,
    to_lowercase, push_str, push_chars, eq_ignore_case,
};

verus! {

/// A script without its `#!` line: everything after the first line feed,
/// or nothing if there is none; a script without `#!` is kept whole.
pub open spec fn shebang_stripped(s: Seq<char>) -> Seq<char> {
    if has_prefix(s, "#!"@) {
        let j = next_char(s, '\n', 0);
        if j < s.len() {
            s.skip(j + 1)
        } else {
            Seq::empty()
        }
    } else {
        s
    }
}

/// Removes a leading `#!` line from a script.
pub fn strip_shebang(script: &str) -> (r: String)
    ensures
        r@ == shebang_stripped(script@),
{
    let c = chars_of(script);
    if !starts_with(&c, &chars_of("#!")) {
        return string_of(&c);
    }
    let j = find_char(&c, '\n', 0);
    if j < c.len() {
        let mut out: Vec<char> = Vec::new();
        let mut k: usize = j + 1;
        while k < c.len()
            invariant
                j + 1 <= k <= c@.len(),
                out@ == c@.subrange(j + 1, k as int),
            decreases c@.len() - k,
        {
            out.push(c[k]);
            k += 1;
            assert(out@ =~= c@.subrange(j + 1, k as int));
        }
        assert(out@ =~= c@.skip(j + 1));
        string_of(&out)
    } else {
        string_of(&Vec::new())
    }
}

/// The compression an archive's name implies, given the name already
/// lower-cased: `gz`, `xz`, `zstd` or `none`.
pub open spec fn compression_spec(l: Seq<char>) -> Seq<char> {
    if has_suffix(l, ".tar.gz"@) || has_suffix(l, ".tgz"@) {
        "gz"@
    } else if has_suffix(l, ".tar.xz"@) || has_suffix(l, ".txz"@) {
        "xz"@
    } else if has_suffix(l, ".tar.zst"@) || has_suffix(l, ".tzst"@) {
        "zstd"@
    } else {
        "none"@
    }
}

fn ends(l: &[char], s: &str) -> (r: bool)
    ensures
        r == has_suffix(l@, s@),
{
    ends_with(l, &chars_of(s))
}

/// The compression a lower-cased archive name implies.
pub fn compression_of_lowered(lowered: &str) -> (r: String)
    ensures
        r@ == compression_spec(lowered@),
{
    let l = chars_of(lowered);
    let name = if ends(&l, ".tar.gz") || ends(&l, ".tgz") {
        "gz"
    } else if ends(&l, ".tar.xz") || ends(&l, ".txz") {
        "xz"
    } else if ends(&l, ".tar.zst") || ends(&l, ".tzst") {
        "zstd"
    } else {
        "none"
    };
    string_of(&chars_of(name))
}

/// The compression an archive's name implies, whatever its case.
pub fn detect_compression(path: &str) -> (r: String)
    ensures
        r@ == compression_spec(unicode_lower(path@)),
{
    let lowered = to_lowercase(path);
    compression_of_lowered(lowered.as_str())
}

/// Whether a database URL is a PostgreSQL one.
pub fn is_postgres_url(url: &str) -> (r: bool)
    ensures
        r == (has_prefix(url@, "postgres://"@) || has_prefix(url@, "postgresql://"@)),
{
    let c = chars_of(url);
    starts_with(&c, &chars_of("postgres://")) || starts_with(&c, &chars_of("postgresql://"))
}

/// Whether an HTTP client verb mutates: every verb but `get`.
pub fn is_gated_http_verb(method: &str) -> (r: bool)
    ensures
        r == (method@ != "get"@),
{
    !chars_eq(&chars_of(method), &chars_of("get"))
}

/// The module paths of the HTTP verbs that the gates wrap one by one.
pub open spec fn http_verb_path(path: Seq<char>) -> bool {
    path == "http.post"@ || path == "http.put"@ || path == "http.patch"@ || path == "http.delete"@
}

/// Whether a module path is one of the HTTP verbs the gates wrap one by
/// one (`http.post`, `http.put`, `http.patch`, `http.delete`).
pub fn is_http_verb_path(path: &str) -> (r: bool)
    ensures
        r == http_verb_path(path@),
{
    let c = chars_of(path);
    chars_eq(&c, &chars_of("http.post")) || chars_eq(&c, &chars_of("http.put")) || chars_eq(
        &c,
        &chars_of("http.patch"),
    ) || chars_eq(&c, &chars_of("http.delete"))
}

/// Whether a unit name matches a glob that is `*`, `*suffix`, `prefix*`
/// or a plain name.
pub open spec fn unit_glob(pattern: Seq<char>, name: Seq<char>) -> bool {
    if pattern == "*"@ {
        true
    } else if pattern.len() > 0 && pattern[0] == '*' {
        has_suffix(name, pattern.drop_first())
    } else if pattern.len() > 0 && pattern.last() == '*' {
        has_prefix(name, pattern.drop_last())
    } else {
        name == pattern
    }
}

/// Matches a unit name against a glob of at most one `*`, at either end.
pub fn glob_matches(pattern: &str, name: &str) -> (r: bool)
    ensures
        r == unit_glob(pattern@, name@),
{
    let p = chars_of(pattern);
    let n = chars_of(name);
    if chars_eq(&p, &chars_of("*")) {
        return true;
    }
    if p.len() > 0 && p[0] == '*' {
        let mut rest: Vec<char> = Vec::new();
        let mut i: usize = 1;
        while i < p.len()
            invariant
                1 <= i <= p@.len(),
                rest@ == p@.subrange(1, i as int),
            decreases p@.len() - i,
        {
            rest.push(p[i]);
            i += 1;
            assert(rest@ =~= p@.subrange(1, i as int));
        }
        assert(rest@ =~= p@.drop_first());
        ends_with(&n, &rest)
    } else if p.len() > 0 && p[p.len() - 1] == '*' {
        let mut head: Vec<char> = Vec::new();
        let mut i: usize = 0;
        while i < p.len() - 1
            invariant
                i < p@.len(),
                head@ == p@.take(i as int),
            decreases p@.len() - i,
        {
            head.push(p[i]);
            i += 1;
            assert(head@ =~= p@.take(i as int));
        }
        assert(head@ =~= p@.drop_last());
        starts_with(&n, &head)
    } else {
        chars_eq(&n, &p)
    }
}

/// The headers of a request as plain characters.
pub open spec fn header_pairs(h: Seq<(String, String)>) -> Seq<(Seq<char>, Seq<char>)> {
    h.map_values(|p: (String, String)| (p.0@, p.1@))
}

/// Whether some header is `Upgrade` (in any case) with a value that says
/// `websocket` (in any case).
pub open spec fn ws_upgrade_spec(h: Seq<(Seq<char>, Seq<char>)>) -> bool {
    exists|i: int|
        0 <= i < h.len() && lower(#[trigger] h[i].0) == "upgrade"@ && contains_seq(lower(h[i].1), "websocket"@)
}

/// Whether a request asks to become a WebSocket.
pub fn is_websocket_upgrade(headers: &[(String, String)]) -> (r: bool)
    ensures
        r == ws_upgrade_spec(header_pairs(headers@)),
{
    let ghost hp = header_pairs(headers@);
    let up = chars_of("upgrade");
    let ws = chars_of("websocket");
    let mut i: usize = 0;
    while i < headers.len()
        invariant
            i <= headers@.len(),
            hp == header_pairs(headers@),
            up@ == "upgrade"@,
            ws@ == "websocket"@,
            forall|k: int|
                0 <= k < i ==> !(lower(#[trigger] hp[k].0) == "upgrade"@ && contains_seq(lower(hp[k].1), "websocket"@)),
        decreases headers@.len() - i,
    {
        let k = chars_of(headers[i].0.as_str());
        let v = chars_of(headers[i].1.as_str());
        let lk = lower_chars(&k);
        let lv = lower_chars(&v);
        assert(hp[i as int] == (headers@[i as int].0@, headers@[i as int].1@));
        if chars_eq(&lk, &up) && contains_chars(&lv, &ws) {
            assert(lower(hp[i as int].0) == "upgrade"@ && contains_seq(lower(hp[i as int].1), "websocket"@));
            return true;
        }
        i += 1;
    }
    false
}

/// What the headers of a WebSocket handshake say, read in order: whether a
/// `Connection` header asks for an upgrade, whether a
/// `Sec-WebSocket-Version` header says 13, and the last
/// `Sec-WebSocket-Key`.
pub open spec fn ws_scan(h: Seq<(Seq<char>, Seq<char>)>) -> (bool, bool, Option<Seq<char>>)
    decreases h.len(),
{
    if h.len() == 0 {
        (false, false, None)
    } else {
        let (c, v, k) = ws_scan(h.drop_last());
        let name = lower(h.last().0);
        let value = h.last().1;
        if name == "connection"@ {
            (c || contains_seq(lower(value), "upgrade"@), v, k)
        } else if name == "sec-websocket-version"@ {
            (c, v || trim(value) == "13"@, k)
        } else if name == "sec-websocket-key"@ {
            (c, v, Some(value))
        } else {
            (c, v, k)
        }
    }
}

/// The outcome of checking a WebSocket handshake: the key, or why the
/// request is refused (the upgrade first, then the version, then the key).
pub open spec fn ws_request_spec(h: Seq<(Seq<char>, Seq<char>)>) -> Result<Seq<char>, Seq<char>> {
    let (c, v, k) = ws_scan(h);
    if !c {
        Err("missing Connection: Upgrade header"@)
    } else if !v {
        Err("Sec-WebSocket-Version must be 13"@)
    } else {
        match k {
            Some(key) => Ok(key),
            None => Err("missing Sec-WebSocket-Key header"@),
        }
    }
}

/// Checks a WebSocket handshake and returns its key.
pub fn validate_ws_request(headers: &[(String, String)]) -> (r: Result<String, &'static str>)
    ensures
        match (r, ws_request_spec(header_pairs(headers@))) {
            (Ok(a), Ok(b)) => a@ == b,
            (Err(a), Err(b)) => a@ == b,
            _ => false,
        },
{
    let ghost hp = header_pairs(headers@);
    let mut has_connection_upgrade = false;
    let mut version_ok = false;
    let mut key: Option<String> = None;
    let n_conn = chars_of("connection");
    let n_ver = chars_of("sec-websocket-version");
    let n_key = chars_of("sec-websocket-key");
    let upgrade = chars_of("upgrade");
    let thirteen = chars_of("13");
    let mut i: usize = 0;
    while i < headers.len()
        invariant
            i <= headers@.len(),
            hp == header_pairs(headers@),
            n_conn@ == "connection"@,
            n_ver@ == "sec-websocket-version"@,
            n_key@ == "sec-websocket-key"@,
            upgrade@ == "upgrade"@,
            thirteen@ == "13"@,
            ws_scan(hp.take(i as int)) == (has_connection_upgrade, version_ok, match key {
                Some(s) => Some(s@),
                None => None,
            }),
        decreases headers@.len() - i,
    {
        assert(hp.take(i + 1).drop_last() =~= hp.take(i as int));
        assert(hp[i as int] == (headers@[i as int].0@, headers@[i as int].1@));
        let k = chars_of(headers[i].0.as_str());
        let v = chars_of(headers[i].1.as_str());
        let lk = lower_chars(&k);
        if chars_eq(&lk, &n_conn) {
            let lv = lower_chars(&v);
            if contains_chars(&lv, &upgrade) {
                has_connection_upgrade = true;
            }
        } else if chars_eq(&lk, &n_ver) {
            let t = trim_chars(&v);
            if chars_eq(&t, &thirteen) {
                version_ok = true;
            }
        } else if chars_eq(&lk, &n_key) {
            key = Some(string_of(&v));
        }
        i += 1;
    }
    assert(hp.take(i as int) =~= hp);
    if !has_connection_upgrade {
        return Err("missing Connection: Upgrade header");
    }
    if !version_ok {
        return Err("Sec-WebSocket-Version must be 13");
    }
    match key {
        Some(k) => Ok(k),
        None => Err("missing Sec-WebSocket-Key header"),
    }
}


/// The character of a six-bit value in the standard base64 alphabet.
pub open spec fn b64_char(v: nat) -> char {
    if v < 26 {
        ((v + 65) as u8) as char
    } else if v < 52 {
        ((v + 71) as u8) as char
    } else if v < 62 {
        ((v - 4) as u8) as char
    } else if v == 62 {
        '+'
    } else {
        '/'
    }
}

/// Padded standard base64 (RFC 4648, section 4): each three bytes become
/// four characters; a final one or two bytes are padded with `=`.
pub open spec fn base64(bs: Seq<u8>) -> Seq<char>
    decreases bs.len(),
{
    if bs.len() == 0 {
        Seq::empty()
    } else if bs.len() == 1 {
        let a = bs[0] as nat;
        seq![b64_char(a / 4), b64_char((a % 4) * 16), '=', '=']
    } else if bs.len() == 2 {
        let a = bs[0] as nat;
        let b = bs[1] as nat;
        seq![b64_char(a / 4), b64_char((a % 4) * 16 + b / 16), b64_char((b % 16) * 4), '=']
    } else {
        let a = bs[0] as nat;
        let b = bs[1] as nat;
        let c = bs[2] as nat;
        seq![
            b64_char(a / 4),
            b64_char((a % 4) * 16 + b / 16),
            b64_char((b % 16) * 4 + c / 64),
            b64_char(c % 64),
        ] + base64(bs.skip(3))
    }
}

/// `data_encoding::BASE64.encode`: padded standard base64.
#[verifier::external_body]
fn base64_encode(bytes: &[u8]) -> (r: String)
    ensures
        r@ == base64(bytes@),
{
    data_encoding::BASE64.encode(bytes)
}

/// The SHA-1 digest of a byte string (the function of FIPS 180-4).
pub uninterp spec fn sha1_spec(data: Seq<u8>) -> Seq<u8>;

/// `sha1::Sha1`: the digest of the bytes, 20 bytes long.
#[verifier::external_body]
fn sha1_digest(data: &[u8]) -> (r: Vec<u8>)
    ensures
        r@ == sha1_spec(data@),
        r@.len() == 20,
{
    let mut hasher = sha1::Sha1::new();
    hasher.update(data);
    hasher.finalize().to_vec()
}

/// The GUID that RFC 6455 appends to a handshake key.
pub const WS_GUID: &'static str = "258EAFA5-E914-47DA-95CA-C5AB0DC85B11";

/// The `Sec-WebSocket-Accept` value for a key: the base64 of the SHA-1 of
/// the key followed by the GUID.
pub open spec fn ws_accept_spec(key: Seq<char>) -> Seq<char> {
    base64(sha1_spec(vstd::utf8::encode_utf8(key) + vstd::utf8::encode_utf8(WS_GUID@)))
}

/// The `Sec-WebSocket-Accept` value answering a handshake key.
pub fn compute_ws_accept(key: &str) -> (r: String)
    ensures
        r@ == ws_accept_spec(key@),
{
    let kb = key.as_bytes();
    let gb = WS_GUID.as_bytes();
    let mut data: Vec<u8> = Vec::new();
    let mut i: usize = 0;
    while i < kb.len()
        invariant
            i <= kb@.len(),
            data@ == kb@.take(i as int),
        decreases kb@.len() - i,
    {
        data.push(kb[i]);
        i += 1;
        assert(data@ =~= kb@.take(i as int));
    }
    assert(kb@.take(i as int) =~= kb@);
    let mut j: usize = 0;
    while j < gb.len()
        invariant
            j <= gb@.len(),
            data@ == kb@ + gb@.take(j as int),
        decreases gb@.len() - j,
    {
        data.push(gb[j]);
        j += 1;
        assert(data@ =~= kb@ + gb@.take(j as int));
    }
    assert(gb@.take(j as int) =~= gb@);
    let d = sha1_digest(data.as_slice());
    base64_encode(d.as_slice())
}

/// The position of the last `/` in `s`, or -1.
pub open spec fn last_slash(s: Seq<char>) -> int
    decreases s.len(),
{
    if s.len() == 0 {
        -1
    } else if s.last() == '/' {
        s.len() - 1
    } else {
        last_slash(s.drop_last())
    }
}

pub proof fn lemma_last_slash(s: Seq<char>)
    ensures
        -1 <= last_slash(s) < s.len(),
        last_slash(s) >= 0 ==> s[last_slash(s)] == '/',
        forall|k: int| last_slash(s) < k < s.len() ==> s[k] != '/',
    decreases s.len(),
{
    if s.len() > 0 && s.last() != '/' {
        lemma_last_slash(s.drop_last());
        assert forall|k: int| last_slash(s) < k < s.len() implies s[k] != '/' by {
            if k < s.len() - 1 {
                assert(s.drop_last()[k] == s[k]);
            }
        }
    }
}

/// The wildcard routes tried for a path once its exact route is missing:
/// `<prefix>/*` for each prefix that ends before a `/`, longest first,
/// down to `/*`.
pub open spec fn wildcard_routes(s: Seq<char>) -> Seq<Seq<char>>
    decreases s.len(),
{
    let pos = last_slash(s);
    proof {
        lemma_last_slash(s);
    }
    if pos < 0 {
        Seq::empty()
    } else if pos == 0 {
        seq!["/*"@]
    } else {
        seq![s.take(pos) + "/*"@] + wildcard_routes(s.take(pos))
    }
}

/// The routes tried for a path, in order: the path itself, then its
/// wildcards.
pub open spec fn route_candidates(path: Seq<char>) -> Seq<Seq<char>> {
    seq![path] + wildcard_routes(path)
}

/// The first position of the route `(method, path)` among the keys.
pub open spec fn route_index(keys: Seq<(Seq<char>, Seq<char>)>, method: Seq<char>, path: Seq<char>, from: int) -> Option<int>
    decreases keys.len() - from,
{
    if from < 0 || from >= keys.len() {
        None
    } else if keys[from] == (method, path) {
        Some(from)
    } else {
        route_index(keys, method, path, from + 1)
    }
}

/// The route that serves a request: the first candidate that is a route of
/// the method, as its position among the keys.
pub open spec fn route_lookup(keys: Seq<(Seq<char>, Seq<char>)>, method: Seq<char>, cands: Seq<Seq<char>>) -> Option<int>
    decreases cands.len(),
{
    if cands.len() == 0 {
        None
    } else {
        match route_index(keys, method, cands[0], 0) {
            Some(i) => Some(i),
            None => route_lookup(keys, method, cands.drop_first()),
        }
    }
}

fn wildcards_of(path: &[char]) -> (r: Vec<Vec<char>>)
    ensures
        r@.len() == wildcard_routes(path@).len(),
        forall|k: int| 0 <= k < r@.len() ==> (#[trigger] r@[k])@ == wildcard_routes(path@)[k],
    decreases path@.len(),
{
    proof {
        lemma_last_slash(path@);
    }
    let mut pos: usize = path.len();
    while pos > 0 && path[pos - 1] != '/'
        invariant
            pos <= path@.len(),
            forall|k: int| pos <= k < path@.len() ==> path@[k] != '/',
            last_slash(path@) < pos,
            -1 <= last_slash(path@),
            last_slash(path@) >= 0 ==> path@[last_slash(path@)] == '/',
        decreases pos,
    {
        pos -= 1;
    }
    if pos == 0 {
        assert(last_slash(path@) == -1);
        return Vec::new();
    }
    let p = pos - 1;
    assert(last_slash(path@) == p);
    if p == 0 {
        let mut v: Vec<Vec<char>> = Vec::new();
        v.push(chars_of("/*"));
        assert(wildcard_routes(path@) =~= seq!["/*"@]);
        return v;
    }
    let mut pre: Vec<char> = Vec::new();
    let mut i: usize = 0;
    while i < p
        invariant
            i <= p < path@.len(),
            pre@ == path@.take(i as int),
        decreases p - i,
    {
        pre.push(path[i]);
        i += 1;
        assert(pre@ =~= path@.take(i as int));
    }
    let rest = wildcards_of(&pre);
    let mut first = pre.clone();
    assert(first@ == pre@);
    push_str(&mut first, "/*");
    let mut out: Vec<Vec<char>> = Vec::new();
    out.push(first);
    let mut k: usize = 0;
    while k < rest.len()
        invariant
            k <= rest@.len(),
            out@.len() == k + 1,
            out@[0]@ == path@.take(p as int) + "/*"@,
            forall|q: int| 0 < q <= k ==> (#[trigger] out@[q])@ == rest@[q - 1]@,
        decreases rest@.len() - k,
    {
        out.push(rest[k].clone());
        k += 1;
    }
    assert(wildcard_routes(path@) == seq![path@.take(p as int) + "/*"@] + wildcard_routes(path@.take(p as int)));
    out
}

fn find_route(keys: &[(String, String)], method: &[char], path: &[char]) -> (r: Option<usize>)
    ensures
        match (r, route_index(header_pairs(keys@), method@, path@, 0)) {
            (Some(a), Some(b)) => a == b,
            (None, None) => true,
            _ => false,
        },
{
    let ghost kp = header_pairs(keys@);
    let mut i: usize = 0;
    while i < keys.len()
        invariant
            i <= keys@.len(),
            kp == header_pairs(keys@),
            route_index(kp, method@, path@, 0) == route_index(kp, method@, path@, i as int),
        decreases keys@.len() - i,
    {
        let km = chars_of(keys[i].0.as_str());
        let kpth = chars_of(keys[i].1.as_str());
        assert(kp[i as int] == (keys@[i as int].0@, keys@[i as int].1@));
        if chars_eq(&km, method) && chars_eq(&kpth, path) {
            return Some(i);
        }
        i += 1;
    }
    None
}

/// Finds the route that serves `method` and `path` among the routes'
/// keys: the exact route if there is one, else the longest `<prefix>/*`,
/// else `/*`. The result is the key's position.
pub fn lookup_route(keys: &[(String, String)], method: &str, path: &str) -> (r: Option<usize>)
    ensures
        match (r, route_lookup(header_pairs(keys@), method@, route_candidates(path@))) {
            (Some(a), Some(b)) => a == b,
            (None, None) => true,
            _ => false,
        },
{
    let m = chars_of(method);
    let p = chars_of(path);
    let ghost kp = header_pairs(keys@);
    let ghost cands = route_candidates(path@);
    assert(cands[0] == path@);
    match find_route(keys, &m, &p) {
        Some(i) => {
            return Some(i);
        },
        None => {},
    }
    let ws = wildcards_of(&p);
    assert(cands.drop_first() =~= wildcard_routes(path@));
    assert(wildcard_routes(path@).skip(0) =~= wildcard_routes(path@));
    let mut k: usize = 0;
    while k < ws.len()
        invariant
            k <= ws@.len(),
            ws@.len() == wildcard_routes(path@).len(),
            forall|q: int| 0 <= q < ws@.len() ==> (#[trigger] ws@[q])@ == wildcard_routes(path@)[q],
            kp == header_pairs(keys@),
            m@ == method@,
            cands == route_candidates(path@),
            route_lookup(kp, method@, cands) == route_lookup(kp, method@, wildcard_routes(path@).skip(k as int)),
        decreases ws@.len() - k,
    {
        assert(wildcard_routes(path@).skip(k as int).drop_first() =~= wildcard_routes(path@).skip(k + 1));
        assert(wildcard_routes(path@).skip(k as int)[0] == ws@[k as int]@);
        match find_route(keys, &m, &ws[k]) {
            Some(i) => {
                let ghost rest = wildcard_routes(path@).skip(k as int);
                assert(rest.len() > 0);
                assert(route_index(kp, method@, rest[0], 0) == Some(i as int));
                assert(route_lookup(kp, method@, rest) == Some(i as int));
                return Some(i);
            },
            None => {},
        }
        k += 1;
    }
    None
}


/// Whether a process of the given name is among the names of the running
/// processes.
pub fn is_process_running(names: &[String], name: &str) -> (r: bool)
    ensures
        r == crate::text::has_str(names@, name@),
{
    crate::text::contains_str(names, name)
}

} // verus!
