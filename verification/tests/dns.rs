use assay::dns::{dnsbl_probe, listed, parse_resolv_conf, parse_server, IpAddress, SocketAddress};
use assay::dns_wire::Answer;

fn v4(a: u8, b: u8, c: u8, d: u8, port: u16) -> SocketAddress {
    SocketAddress { ip: IpAddress::V4([a, b, c, d]), port }
}

fn ips(addresses: &[&str]) -> Vec<[u8; 4]> {
    addresses
        .iter()
        .map(|a| Answer::Text(a.to_string()).as_ipv4().unwrap())
        .collect()
}

#[test]
fn an_ordinary_loopback_code_is_a_listing() {
    assert!(listed(&ips(&["127.0.0.2"])));
    assert!(listed(&ips(&["127.0.0.10"])));
    assert!(listed(&ips(&["127.0.1.2"])));
}

#[test]
fn the_go_away_code_public_resolvers_get_is_not_a_listing() {
    assert!(!listed(&ips(&["127.255.255.254"])));
    assert!(!listed(&ips(&["127.255.255.0"])));
    assert!(!listed(&ips(&["127.255.255.255"])));
}

#[test]
fn the_excluded_range_stops_at_its_own_edge() {
    assert!(listed(&ips(&["127.255.254.255"])));
}

#[test]
fn nothing_and_nothing_loopback_are_not_listings() {
    assert!(!listed(&[]));
    assert!(!listed(&ips(&["10.0.0.1"])));
    assert!(!listed(&ips(&["0.0.0.0"])));
}

#[test]
fn a_real_hit_alongside_the_go_away_code_is_still_a_hit() {
    assert!(listed(&ips(&["127.255.255.254", "127.0.0.4"])));
}

#[test]
fn nameservers_are_read_in_the_order_the_file_lists_them() {
    let conf = "\
# generated by something
search corp.example.com example.com
nameserver 10.0.0.53
options edns0 trust-ad
nameserver 10.0.1.53
domain corp.example.com
";
    assert_eq!(parse_resolv_conf(conf), vec![v4(10, 0, 0, 53, 53), v4(10, 0, 1, 53, 53)]);
}

#[test]
fn comments_and_unusable_entries_are_skipped() {
    let conf = "\
#nameserver 1.1.1.1
nameserver 8.8.8.8 # the one in use
; nameserver 9.9.9.9
nameserver not-an-address
nameserver
nameserver fe80::1%eth0
";
    assert_eq!(
        parse_resolv_conf(conf),
        vec![
            v4(8, 8, 8, 8, 53),
            SocketAddress { ip: IpAddress::V6([0xfe80, 0, 0, 0, 0, 0, 0, 1]), port: 53 },
        ]
    );
}

#[test]
fn a_server_without_a_port_gets_the_standard_one() {
    assert_eq!(parse_server("1.1.1.1").unwrap(), v4(1, 1, 1, 1, 53));
    assert_eq!(parse_server("1.1.1.1:5353").unwrap(), v4(1, 1, 1, 1, 5353));
    let cf = IpAddress::V6([0x2606, 0x4700, 0x4700, 0, 0, 0, 0, 0x1111]);
    assert_eq!(
        parse_server("[2606:4700:4700::1111]:5353").unwrap(),
        SocketAddress { ip: cf, port: 5353 }
    );
    assert_eq!(parse_server("2606:4700:4700::1111").unwrap(), SocketAddress { ip: cf, port: 53 });
    assert!(parse_server("resolver.example.com").is_err());
}

#[test]
fn a_bad_server_is_named_in_the_refusal() {
    assert_eq!(
        parse_server(" nope ").unwrap_err(),
        "'nope' is not a nameserver address — want an IP, 'IP:port', or '[v6]:port'"
    );
}

#[test]
fn a_dnsbl_is_asked_about_the_domain_under_the_list() {
    assert_eq!(dnsbl_probe(" Example.COM. ", "zen.spamhaus.org.."), Ok("example.com.zen.spamhaus.org".to_string()));
    assert_eq!(
        dnsbl_probe("...", "zen.spamhaus.org"),
        Err("dns.dnsbl: both a domain and a list are required".to_string())
    );
    assert!(dnsbl_probe("example.com", " ").is_err());
}

#[test]
fn only_text_answers_read_as_addresses() {
    assert_eq!(Answer::Text("192.0.2.1".to_string()).as_ipv4(), Some([192, 0, 2, 1]));
    assert_eq!(Answer::Text("mail.example.com".to_string()).as_ipv4(), None);
    assert_eq!(Answer::Mx { preference: 1, exchange: "1.2.3.4".to_string() }.as_ipv4(), None);
}
