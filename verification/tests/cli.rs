use castellan::addr::{IpAddr, Ipv4Addr, Ipv6Addr};
use castellan::cli::{check, parse_upstreams};
use castellan::config::Config;

fn strings(values: &[&str]) -> Vec<String> {
    values.iter().map(|v| v.to_string()).collect()
}

#[test]
fn upstream_forms_are_accepted() {
    let v4 = IpAddr::V4(Ipv4Addr { octets: [9, 9, 9, 9] });
    let v6 = IpAddr::V6(Ipv6Addr { segments: [0x2620, 0xfe, 0, 0, 0, 0, 0, 0xfe] });
    let values = strings(&["9.9.9.9", "9.9.9.9:53", "2620:fe::fe", "[2620:fe::fe]:5353",
        "[2620:fe::fe]", "[9.9.9.9]"]);
    assert_eq!(parse_upstreams(&values), Ok(vec![v4, v4, v6, v6, v6, v4]));
    assert_eq!(parse_upstreams(&vec![]), Ok(vec![]));
}

#[test]
fn the_first_bad_upstream_is_named() {
    let values = strings(&["9.9.9.9", "dns.example", "x"]);
    assert_eq!(parse_upstreams(&values), Err("dns.example".to_string()));
    assert_eq!(parse_upstreams(&strings(&[""])), Err("".to_string()));
    assert_eq!(
        parse_upstreams(&strings(&["9.9.9.9:99999"])),
        Err("9.9.9.9:99999".to_string())
    );
}

#[test]
fn the_report_counts_patterns() {
    let cfg = Config::parse("a.com\nb.com\n.c.com\n*.d.com\nre:e+\n").unwrap();
    assert_eq!(
        check("list.txt", &cfg, &vec![]),
        "list.txt: 5 pattern(s)\n  exact:    2\n  suffix:   1\n  wildcard: 1\n  regex:    1\n"
    );
}

#[test]
fn the_report_tests_names() {
    let cfg = Config::parse("a.com\nJsonList(https://x.io, [k])\n").unwrap();
    let names = strings(&["a.com", "evil.com", "é"]);
    assert_eq!(
        check("p", &cfg, &names),
        "p: 1 pattern(s)\n  exact:    1\n  suffix:   0\n  wildcard: 0\n  regex:    0\n  \
         JsonList: 1 URL(s)\n\na.com                 ALLOW\nevil.com              BLOCK\n\
         é                     BLOCK\n"
    );
}

#[test]
fn the_column_of_names_is_as_wide_as_the_longest() {
    let cfg = Config::parse(".example.com\n").unwrap();
    let names = strings(&["long.subdomain.example.com", "example.com"]);
    let report = check("p", &cfg, &names);
    assert!(report.ends_with(
        "\n\nlong.subdomain.example.com  ALLOW\nexample.com                 ALLOW\n"
    ));
}
