//! Who to ask for DNS, and the blacklist question it is usually asked for:
//! the nameservers of a `resolv.conf`, a server given by hand, the name a
//! DNSBL is queried under, and whether its answer means "listed".

use vstd::prelude::*;
use crate::text::{
    trim, lower, lines, pieces, words_ws, chars_of, trim_chars, lower_chars, lines_of, words_ws_of,
    string_of, push_str, push_chars, chars_eq, split_all,
};
use crate::dns_wire::{Answer, AnswerView};

verus! {

/// The port a nameserver listens on unless told otherwise.
pub const DEFAULT_PORT: u16 = 53;

/// An IP address: four octets, or eight 16-bit groups.
#[derive(Debug, Clone, Copy, PartialEq, Eq)]
pub enum IpAddress {
    V4([u8; 4]),
    V6([u16; 8]),
}

/// An IP address and a port.
#[derive(Debug, Clone, Copy, PartialEq, Eq)]
pub struct SocketAddress {
    pub ip: IpAddress,
    pub port: u16,
}

/// The address `IpAddr::from_str` reads from a text, if it reads one.
pub uninterp spec fn ip_from_text(s: Seq<char>) -> Option<IpAddress>;

/// The address `SocketAddr::from_str` reads from a text, if it reads one.
pub uninterp spec fn socket_from_text(s: Seq<char>) -> Option<SocketAddress>;

/// The address `Ipv4Addr::from_str` reads from a text, if it reads one.
pub uninterp spec fn ipv4_from_text(s: Seq<char>) -> Option<[u8; 4]>;

/// `IpAddr::from_str`: an IPv4 or IPv6 address in its usual text form.
#[verifier::external_body]
fn parse_ip(s: &str) -> (r: Option<IpAddress>)
    ensures
        r == ip_from_text(s@),
{
    match s.parse::<core::net::IpAddr>() {
        Ok(core::net::IpAddr::V4(a)) => Some(IpAddress::V4(a.octets())),
        Ok(core::net::IpAddr::V6(a)) => Some(IpAddress::V6(a.segments())),
        Err(_) => None,
    }
}

/// `SocketAddr::from_str`: `ip:port`, or `[v6]:port`.
#[verifier::external_body]
fn parse_socket(s: &str) -> (r: Option<SocketAddress>)
    ensures
        r == socket_from_text(s@),
{
    match s.parse::<core::net::SocketAddr>() {
        Ok(core::net::SocketAddr::V4(a)) => Some(
            SocketAddress { ip: IpAddress::V4(a.ip().octets()), port: a.port() },
        ),
        Ok(core::net::SocketAddr::V6(a)) => Some(
            SocketAddress { ip: IpAddress::V6(a.ip().segments()), port: a.port() },
        ),
        Err(_) => None,
    }
}

/// `Ipv4Addr::from_str`: a dotted-quad IPv4 address.
#[verifier::external_body]
fn parse_ipv4(s: &str) -> (r: Option<[u8; 4]>)
    ensures
        r == ipv4_from_text(s@),
{
    match s.parse::<core::net::Ipv4Addr>() {
        Ok(a) => Some(a.octets()),
        Err(_) => None,
    }
}

/// The position of the first `#` or `;` at or after `i`, or the end.
pub open spec fn comment_start(l: Seq<char>, i: int) -> int
    decreases l.len() - i,
{
    if i < 0 || i >= l.len() {
        l.len() as int
    } else if l[i] == '#' || l[i] == ';' {
        i
    } else {
        comment_start(l, i + 1)
    }
}

/// The text of a line before its first `#` or `;`.
pub open spec fn before_comment(l: Seq<char>) -> Seq<char> {
    l.take(comment_start(l, 0))
}

/// The address a `nameserver` line names, without a `%scope`, if the line
/// is one; what comes after a `#` or `;` is a comment.
pub open spec fn nameserver_field(l: Seq<char>) -> Option<Seq<char>> {
    let ws = words_ws(before_comment(l));
    if ws.len() >= 2 && ws[0] == "nameserver"@ {
        Some(pieces(ws[1], '%')[0])
    } else {
        None
    }
}

/// The nameservers the lines of a `resolv.conf` name, in order: each
/// `nameserver` line whose address reads as an IP, on the standard port.
pub open spec fn nameservers(ls: Seq<Seq<char>>) -> Seq<SocketAddress>
    decreases ls.len(),
{
    if ls.len() == 0 {
        Seq::empty()
    } else {
        let prev = nameservers(ls.drop_last());
        match nameserver_field(ls.last()) {
            Some(a) => match ip_from_text(a) {
                Some(ip) => prev.push(SocketAddress { ip, port: DEFAULT_PORT }),
                None => prev,
            },
            None => prev,
        }
    }
}


fn nameserver_of(l: &[char]) -> (r: Option<Vec<char>>)
    ensures
        match (r, nameserver_field(l@)) {
            (Some(a), Some(b)) => a@ == b,
            (None, None) => true,
            _ => false,
        },
{
    let mut j: usize = 0;
    while j < l.len() && l[j] != '#' && l[j] != ';'
        invariant
            j <= l@.len(),
            comment_start(l@, 0) == comment_start(l@, j as int),
        decreases l@.len() - j,
    {
        j += 1;
    }
    let mut body: Vec<char> = Vec::new();
    let mut k: usize = 0;
    while k < j
        invariant
            k <= j <= l@.len(),
            body@ == l@.take(k as int),
        decreases j - k,
    {
        body.push(l[k]);
        k += 1;
        assert(body@ =~= l@.take(k as int));
    }
    let ws = words_ws_of(&body);
    if ws.len() >= 2 && chars_eq(&ws[0], &chars_of("nameserver")) {
        let parts = split_all(&ws[1], '%');
        let first = parts[0].clone();
        assert(first@ == parts@[0]@);
        Some(first)
    } else {
        None
    }
}

/// Reads the `nameserver` lines of a `resolv.conf`, in the order it lists
/// them, and ignores everything else: comments after `#` or `;`, lines
/// naming no address, addresses that are not IPs. A `%scope` after an
/// address is dropped.
pub fn parse_resolv_conf(text: &str) -> (r: Vec<SocketAddress>)
    ensures
        r@ == nameservers(lines(text@)),
{
    let c = chars_of(text);
    let ls = lines_of(&c);
    let ghost lv = lines(text@);
    let mut out: Vec<SocketAddress> = Vec::new();
    let mut i: usize = 0;
    while i < ls.len()
        invariant
            i <= ls@.len(),
            ls@.len() == lv.len(),
            forall|k: int| 0 <= k < ls@.len() ==> (#[trigger] ls@[k])@ == lv[k],
            out@ == nameservers(lv.take(i as int)),
        decreases ls@.len() - i,
    {
        assert(lv.take(i + 1).drop_last() =~= lv.take(i as int));
        assert(lv.take(i + 1).last() == lv[i as int]);
        match nameserver_of(&ls[i]) {
            Some(a) => {
                let text = string_of(&a);
                match parse_ip(text.as_str()) {
                    Some(ip) => out.push(SocketAddress { ip, port: DEFAULT_PORT }),
                    None => {},
                }
            },
            None => {},
        }
        i += 1;
    }
    assert(lv.take(i as int) =~= lv);
    out
}

/// The refusal of a server that is not an address.
pub open spec fn msg_not_a_server(spec: Seq<char>) -> Seq<char> {
    "'"@ + spec + "' is not a nameserver address — want an IP, 'IP:port', or '[v6]:port'"@
}

/// What a server given by hand means: an address with a port, else a bare
/// address on the standard port, else a refusal. The text is trimmed first.
pub open spec fn server_spec(spec: Seq<char>) -> Result<SocketAddress, Seq<char>> {
    let t = trim(spec);
    match socket_from_text(t) {
        Some(a) => Ok(a),
        None => match ip_from_text(t) {
            Some(ip) => Ok(SocketAddress { ip, port: DEFAULT_PORT }),
            None => Err(msg_not_a_server(t)),
        },
    }
}

/// Reads a nameserver given by hand: a bare address, or one with a port.
pub fn parse_server(spec: &str) -> (r: Result<SocketAddress, String>)
    ensures
        match (r, server_spec(spec@)) {
            (Ok(a), Ok(b)) => a == b,
            (Err(a), Err(b)) => a@ == b,
            _ => false,
        },
{
    let t = string_of(&trim_chars(&chars_of(spec)));
    if let Some(a) = parse_socket(t.as_str()) {
        return Ok(a);
    }
    if let Some(ip) = parse_ip(t.as_str()) {
        return Ok(SocketAddress { ip, port: DEFAULT_PORT });
    }
    let mut m = chars_of("'");
    push_chars(&mut m, &chars_of(t.as_str()));
    push_str(&mut m, "' is not a nameserver address — want an IP, 'IP:port', or '[v6]:port'");
    Err(string_of(&m))
}

impl Answer {
    /// The address of an `A` answer, for callers that reason about the
    /// numbers rather than the text.
    pub fn as_ipv4(&self) -> (r: Option<[u8; 4]>)
        ensures
            r == (match self@ {
                AnswerView::Text(t) => ipv4_from_text(t),
                AnswerView::Mx(_, _) => None,
            }),
    {
        match self {
            Answer::Text(s) => parse_ipv4(s.as_str()),
            Answer::Mx { .. } => None,
        }
    }
}

/// Whether a DNSBL code means "listed": in `127.0.0.0/8`, but not in
/// `127.255.255.0/24`, which the big lists answer resolvers they do not
/// serve with.
pub open spec fn listing_code(ip: [u8; 4]) -> bool {
    ip[0] == 127 && !(ip[1] == 255 && ip[2] == 255)
}

/// Whether a DNSBL's answer means "listed": some code is a listing code.
pub fn listed(codes: &[[u8; 4]]) -> (r: bool)
    ensures
        r == exists|i: int| 0 <= i < codes@.len() && listing_code(#[trigger] codes@[i]),
{
    let mut i: usize = 0;
    while i < codes.len()
        invariant
            i <= codes@.len(),
            forall|k: int| 0 <= k < i ==> !listing_code(#[trigger] codes@[k]),
        decreases codes@.len() - i,
    {
        let ip = codes[i];
        if ip[0] == 127 && !(ip[1] == 255 && ip[2] == 255) {
            assert(listing_code(codes@[i as int]));
            return true;
        }
        i += 1;
    }
    false
}

/// A name as a DNSBL query takes it: trimmed, without trailing dots,
/// ASCII lower-cased.
pub open spec fn dnsbl_part(s: Seq<char>) -> Seq<char> {
    lower(strip_trailing_dots(trim(s)))
}

/// The text without the dots that end it.
pub open spec fn strip_trailing_dots(s: Seq<char>) -> Seq<char>
    decreases s.len(),
{
    if s.len() > 0 && s.last() == '.' {
        strip_trailing_dots(s.drop_last())
    } else {
        s
    }
}

fn dnsbl_part_exec(s: &str) -> (r: Vec<char>)
    ensures
        r@ == dnsbl_part(s@),
{
    let mut t = trim_chars(&chars_of(s));
    let ghost t0 = t@;
    while t.len() > 0 && t[t.len() - 1] == '.'
        invariant
            strip_trailing_dots(t0) == strip_trailing_dots(t@),
        decreases t@.len(),
    {
        t.pop();
    }
    lower_chars(&t)
}

/// The name a DNSBL is asked about a domain: `domain.list`, each part
/// trimmed, without trailing dots and lower-cased; refused if either is
/// then empty.
pub fn dnsbl_probe(domain: &str, list: &str) -> (r: Result<String, String>)
    ensures
        dnsbl_part(domain@).len() == 0 || dnsbl_part(list@).len() == 0 ==> (r matches Err(e) && e@
            == "dns.dnsbl: both a domain and a list are required"@),
        dnsbl_part(domain@).len() > 0 && dnsbl_part(list@).len() > 0 ==> (r matches Ok(p) && p@
            == dnsbl_part(domain@) + "."@ + dnsbl_part(list@)),
{
    let d = dnsbl_part_exec(domain);
    let l = dnsbl_part_exec(list);
    if d.len() == 0 || l.len() == 0 {
        return Err(string_of(&chars_of("dns.dnsbl: both a domain and a list are required")));
    }
    let mut p = d;
    push_str(&mut p, ".");
    push_chars(&mut p, &l);
    Ok(string_of(&p))
}

} // verus!
