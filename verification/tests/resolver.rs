use easyfibers::dns::{get_dns_servers, host_address, random_query, resolv_parse, Dns, HostAddr};
use easyfibers::dns_message::{build_query, dns_addresses, dns_parse, Ipv4};
use easyfibers::error::Error;

const ADDRESS: Ipv4 = Ipv4 { a: 93, b: 184, c: 216, d: 34 };

fn reply() -> Vec<u8> {
    let mut m = vec![0x12, 0x34, 0x81, 0x80, 0, 1, 0, 2, 0, 0, 0, 0];
    m.extend_from_slice(b"\x03www\x07example\x03com\x00\x00\x01\x00\x01");
    // an alias first
    m.extend_from_slice(b"\xc0\x0c\x00\x05\x00\x01\x00\x00\x00\x3c\x00\x02\xc0\x10");
    // then an address
    m.extend_from_slice(b"\xc0\x10\x00\x01\x00\x01\x00\x00\x00\x3c\x00\x04");
    m.extend_from_slice(&[93, 184, 216, 34]);
    m
}

#[test]
fn resolv_conf_gives_name_servers() {
    let text = "# comment\nnameserver 10.0.0.1\nsearch example.com\n\n  nameserver\t10.0.0.2 # two\nnameserver\n";
    assert_eq!(resolv_parse(text), vec!["10.0.0.1".to_string(), "10.0.0.2".to_string()]);
    assert_eq!(resolv_parse(""), Vec::<String>::new());
    assert_eq!(resolv_parse("nameserver 1.1.1.1"), vec!["1.1.1.1".to_string()]);
    // the first word begins with the keyword
    assert_eq!(resolv_parse("nameservers 1.1.1.1"), vec!["1.1.1.1".to_string()]);
    assert_eq!(resolv_parse("options nameserver 1.1.1.1"), Vec::<String>::new());
}

#[test]
fn without_resolv_conf_google_is_asked() {
    assert_eq!(get_dns_servers(None), vec!["8.8.8.8".to_string(), "8.8.4.4".to_string()]);
    assert_eq!(get_dns_servers(Some("nameserver 9.9.9.9\n")), vec!["9.9.9.9".to_string()]);
}

#[test]
fn query_for_a_host() {
    let m = build_query(0x1234, "www.example.com").unwrap();
    let mut expected = vec![0x12, 0x34, 1, 0, 0, 1, 0, 0, 0, 0, 0, 0];
    expected.extend_from_slice(b"\x03www\x07example\x03com\x00\x00\x01\x00\x01");
    assert_eq!(m, expected);
    assert_eq!(dns_addresses(&m), Some(vec![]));
    assert_eq!(dns_parse(&m), None);
}

#[test]
fn hosts_that_can_not_be_asked_for() {
    assert_eq!(build_query(1, ""), None);
    assert_eq!(build_query(1, "a..b"), None);
    assert_eq!(build_query(1, "a."), None);
    let label = "x".repeat(64);
    assert_eq!(build_query(1, &label), None);
    assert!(build_query(1, &label[..63]).is_some());
    let long = "abcdefghi.".repeat(60);
    assert_eq!(build_query(1, &long[..599]), None);
}

#[test]
fn random_queries_differ_in_their_id_alone() {
    let a = random_query("example.com").unwrap();
    let b = build_query(0, "example.com").unwrap();
    assert_eq!(a[2..], b[2..]);
    assert_eq!(a.len(), b.len());
    assert_eq!(random_query(""), None);
}

#[test]
fn reply_gives_the_first_address() {
    assert_eq!(dns_parse(&reply()), Some(ADDRESS));
    assert_eq!(dns_addresses(&reply()), Some(vec![ADDRESS]));
}

#[test]
fn replies_that_are_cut_short() {
    let m = reply();
    for n in 0..m.len() {
        assert_eq!(dns_parse(&m[..n]), None);
    }
}

#[test]
fn address_record_of_the_wrong_length() {
    let mut m = reply();
    let n = m.len();
    m[n - 5] = 3;
    assert_eq!(dns_parse(&m), None);
}

#[test]
fn attempts_take_the_servers_in_turn() {
    let dns = Dns::new(Some("nameserver 10.0.0.1\nnameserver 10.0.0.2\n"));
    assert_eq!(dns.servers(), 2);
    assert_eq!(dns.start_lookup("example.com").ok().unwrap().server, "10.0.0.1");
    assert_eq!(dns.lookup_on(3, "example.com").ok().unwrap().server, "10.0.0.2");
    let asked = dns.lookup_on(4, "example.com").ok().unwrap();
    assert_eq!(asked.server, "10.0.0.1");
    assert_eq!(asked.message[2..], build_query(0, "example.com").unwrap()[2..]);
    assert_eq!(dns.lookup_on(1, "").err(), Some(Error::BadHost));
    assert_eq!(Error::BadHost.message(), "bad host name");
    assert_eq!(dns.check_result(), None);
}

#[test]
fn host_addresses_of_the_system_resolver() {
    let n = 93u32 | 184 << 8 | 216 << 16 | 34 << 24;
    let list = vec![HostAddr::Inet(1), HostAddr::Inet6, HostAddr::Inet(n), HostAddr::Other];
    assert_eq!(host_address(&list), Some(ADDRESS));
    assert_eq!(host_address(&vec![HostAddr::Inet6]), None);
    assert_eq!(ADDRESS.to_text(), "93.184.216.34");
    assert_eq!(Ipv4 { a: 0, b: 10, c: 100, d: 255 }.to_text(), "0.10.100.255");
}
