use castellan::addr::{
    format_ip, format_v4, format_v6, parse_ip, parse_socket_ip, parse_v4, parse_v6, IpAddr,
    Ipv4Addr, Ipv6Addr,
};
use castellan::net::{format_v4_net, format_v6_net, Ipv4Net, Ipv6Net};

fn chars(s: &str) -> Vec<char> {
    s.chars().collect()
}

fn text(chars: Vec<char>) -> String {
    chars.into_iter().collect()
}

fn v4(s: &str) -> Option<[u8; 4]> {
    parse_v4(&chars(s)).map(|a| a.octets)
}

fn v6(s: &str) -> Option<[u16; 8]> {
    parse_v6(&chars(s)).map(|a| a.segments)
}

fn v6_text(segments: [u16; 8]) -> String {
    text(format_v6(&Ipv6Addr { segments }))
}

#[test]
fn v4_addresses_are_read() {
    assert_eq!(v4("172.17.0.1"), Some([172, 17, 0, 1]));
    assert_eq!(v4("0.0.0.0"), Some([0, 0, 0, 0]));
    assert_eq!(v4("255.255.255.255"), Some([255, 255, 255, 255]));
}

#[test]
fn what_is_no_v4_address_is_rejected() {
    let samples = [
        "01.2.3.4", "1.2.3", "1.2.3.4.5", "256.1.1.1", "1.2.3.", ".1.2.3", "", "a.b.c.d",
        "1..2.3", " 1.2.3.4", "1.2.3.4 ", "0.00.0.0", "1.2.3.+4", "1.2.3.0004",
    ];
    for s in samples {
        assert_eq!(v4(s), None, "{}", s);
    }
}

#[test]
fn v6_addresses_are_read() {
    assert_eq!(v6("2001:db8::1"), Some([0x2001, 0xdb8, 0, 0, 0, 0, 0, 1]));
    assert_eq!(v6("::"), Some([0; 8]));
    assert_eq!(v6("::ffff:1.2.3.4"), Some([0, 0, 0, 0, 0, 0xffff, 0x102, 0x304]));
    assert_eq!(v6("1:2:3:4:5:6:7:8"), Some([1, 2, 3, 4, 5, 6, 7, 8]));
}

#[test]
fn groups_may_be_left_out_and_v4_tails_may_follow() {
    assert_eq!(v6("::"), Some([0, 0, 0, 0, 0, 0, 0, 0]));
    assert_eq!(v6("::1"), Some([0, 0, 0, 0, 0, 0, 0, 1]));
    assert_eq!(v6("1::"), Some([1, 0, 0, 0, 0, 0, 0, 0]));
    assert_eq!(v6("1:2:3:4:5:6:7:8"), Some([1, 2, 3, 4, 5, 6, 7, 8]));
    assert_eq!(v6("1::8"), Some([1, 0, 0, 0, 0, 0, 0, 8]));
    assert_eq!(v6("1:2:3:4:5:6:7::"), Some([1, 2, 3, 4, 5, 6, 7, 0]));
    assert_eq!(v6("::2:3:4:5:6:7:8"), Some([0, 2, 3, 4, 5, 6, 7, 8]));
    assert_eq!(v6("ABCD::ef"), Some([0xabcd, 0, 0, 0, 0, 0, 0, 0xef]));
    assert_eq!(v6("::1.2.3.4"), Some([0, 0, 0, 0, 0, 0, 0x102, 0x304]));
    assert_eq!(v6("1:2:3:4:5:6:1.2.3.4"), Some([1, 2, 3, 4, 5, 6, 0x102, 0x304]));
    assert_eq!(v6("::ffff:0:1.2.3.4"), Some([0, 0, 0, 0, 0xffff, 0, 0x102, 0x304]));
    assert_eq!(v6("0:0:0:0:0:0:0:1"), Some([0, 0, 0, 0, 0, 0, 0, 1]));
}

#[test]
fn what_is_no_v6_address_is_rejected() {
    let samples = [
        "", ":", ":::", "1:2:3:4:5:6:7", "1:2:3:4:5:6:7:8:9", "1:2:3:4::5:6:7:8", "::1::",
        "1:::2", "12345::", "g::", "1:2:3:4:5:6:7:1.2.3.4", "1.2.3.4::", "::1.2.3.4:5",
        "::256.1.1.1", "1.2.3.4", " ::1", "::1 ", "::1%1", "[::1]", "00001::", "1:2:3:4:5:6:7:",
        ":1:2:3:4:5:6:7",
    ];
    for s in samples {
        assert_eq!(v6(s), None, "{}", s);
    }
}

#[test]
fn the_first_longest_run_of_zeros_is_left_out() {
    assert_eq!(v6_text([0; 8]), "::");
    assert_eq!(v6_text([0, 0, 0, 0, 0, 0, 0, 1]), "::1");
    assert_eq!(v6_text([1, 0, 0, 0, 0, 0, 0, 0]), "1::");
    assert_eq!(v6_text([0x2001, 0xdb8, 0, 0, 1, 0, 0, 1]), "2001:db8::1:0:0:1");
    assert_eq!(v6_text([1, 0, 2, 0, 3, 0, 4, 0]), "1:0:2:0:3:0:4:0");
    assert_eq!(v6_text([0, 0, 0, 1, 0, 0, 0, 0]), "0:0:0:1::");
    assert_eq!(v6_text([0xabcd, 0, 0, 1, 0, 0, 2, 3]), "abcd::1:0:0:2:3");
    assert_eq!(v6_text([1, 2, 3, 4, 5, 6, 7, 8]), "1:2:3:4:5:6:7:8");
    assert_eq!(v6_text([0xffff; 8]), "ffff:ffff:ffff:ffff:ffff:ffff:ffff:ffff");
}

#[test]
fn mapped_v4_addresses_are_written_as_v4() {
    assert_eq!(v6_text([0, 0, 0, 0, 0, 0xffff, 0x7f00, 1]), "::ffff:127.0.0.1");
    assert_eq!(v6_text([0, 0, 0, 0, 0, 0xffff, 0, 0]), "::ffff:0.0.0.0");
    assert_eq!(v6_text([0, 0, 0, 0, 0, 0, 0x7f00, 1]), "::7f00:1");
}

#[test]
fn v4_addresses_are_written() {
    assert_eq!(text(format_v4(&Ipv4Addr { octets: [0, 0, 0, 0] })), "0.0.0.0");
    assert_eq!(text(format_v4(&Ipv4Addr { octets: [10, 200, 30, 255] })), "10.200.30.255");
}

#[test]
fn written_addresses_read_back() {
    for s in ["127.0.0.1", "::", "fe80::1:0:0:1", "::ffff:10.0.0.1", "1:0:0:2::3"] {
        let a = parse_ip(&chars(s)).unwrap();
        assert_eq!(text(format_ip(&a)), s);
        assert_eq!(parse_ip(&format_ip(&a)), Some(a));
    }
}

#[test]
fn socket_addresses_are_read() {
    let v4 = Some(IpAddr::V4(Ipv4Addr { octets: [1, 2, 3, 4] }));
    for s in ["1.2.3.4:53", "1.2.3.4:65535", "1.2.3.4:00053", "1.2.3.4:0"] {
        assert_eq!(parse_socket_ip(&chars(s)), v4, "{}", s);
    }
    let v6 = Some(IpAddr::V6(Ipv6Addr { segments: [0xfe80, 0, 0, 0, 0, 0, 0, 1] }));
    for s in ["[fe80::1]:53", "[fe80::1]:0", "[fe80::1%2]:53", "[fe80::1%4294967295]:1"] {
        assert_eq!(parse_socket_ip(&chars(s)), v6, "{}", s);
    }
}

#[test]
fn what_is_no_socket_address_is_rejected() {
    let samples = [
        "1.2.3.4:", "1.2.3.4:65536", "1.2.3.4", "[::1]", "::1:53", "[::1]:x", "[1.2.3.4]:53",
        "[fe80::1%4294967296]:1", "[fe80::1%]:1", "host:53", "", ":53", "[]:53", "[::1]:65536",
        "1.2.3.4:+5",
    ];
    for s in samples {
        assert_eq!(parse_socket_ip(&chars(s)), None, "{}", s);
    }
}

#[test]
fn ranges_are_written() {
    let n = Ipv4Net { addr: Ipv4Addr { octets: [10, 0, 0, 0] }, prefix_len: 8 };
    assert_eq!(text(format_v4_net(&n)), "10.0.0.0/8");
    let segments = [0x2001, 0xdb8, 0, 0, 0, 0, 0, 0];
    let n = Ipv6Net { addr: Ipv6Addr { segments }, prefix_len: 32 };
    assert_eq!(text(format_v6_net(&n)), "2001:db8::/32");
}
