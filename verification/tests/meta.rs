use castellan::addr::{Ipv4Addr, Ipv6Addr};
use castellan::config::JsonIpListSpec;
use castellan::meta::{
    array_key, extract_cidrs, merge_ranges, parse_cidrs, read_ip_list, read_json, select_ranges,
    IpListError, IpRanges, Json,
};
use castellan::net::{Ipv4Net, Ipv6Net};

fn json(text: &str) -> Json {
    read_json(text.as_bytes()).unwrap()
}

fn cidrs(text: &str, key: &str) -> (Vec<Ipv4Net>, Vec<Ipv6Net>) {
    parse_cidrs(&extract_cidrs(&json(text), key))
}

fn net4(octets: [u8; 4], prefix_len: u8) -> Ipv4Net {
    Ipv4Net { addr: Ipv4Addr { octets }, prefix_len }
}

fn spec(keys: &[&str]) -> JsonIpListSpec {
    JsonIpListSpec {
        url: "https://example.com".to_string(),
        keys: keys.iter().map(|k| k.to_string()).collect(),
    }
}

#[test]
fn simple_key_string_array() {
    let j = "{\"web\": [\"1.2.3.0/24\", \"2001:db8::/32\"]}";
    let (v4, v6) = cidrs(j, "web");
    assert_eq!(v4.len(), 1);
    assert_eq!(v6.len(), 1);
}

#[test]
fn path_key_ipv4_only() {
    let j = "{\"prefixes\": [
            {\"ipv4Prefix\": \"8.8.4.0/24\"},
            {\"ipv6Prefix\": \"2001:4860::/32\"}
        ]}";
    let (v4, v6) = cidrs(j, "prefixes[].ipv4Prefix");
    assert_eq!(v4.len(), 1);
    assert_eq!(v6.len(), 0);
}

#[test]
fn path_key_ipv6_only() {
    let j = "{\"prefixes\": [
            {\"ipv4Prefix\": \"8.8.4.0/24\"},
            {\"ipv6Prefix\": \"2001:4860::/32\"}
        ]}";
    let (v4, v6) = cidrs(j, "prefixes[].ipv6Prefix");
    assert_eq!(v4.len(), 0);
    assert_eq!(v6.len(), 1);
}

#[test]
fn path_key_missing_field_skipped() {
    // Objects without the requested field are silently skipped.
    let j = "{\"prefixes\": [
            {\"other\": \"not-a-cidr\"},
            {\"ip_prefix\": \"10.0.0.0/8\"}
        ]}";
    let (v4, _) = cidrs(j, "prefixes[].ip_prefix");
    assert_eq!(v4.len(), 1);
}

#[test]
fn aws_style_separate_v4_v6_arrays() {
    let j = "{
            \"prefixes\": [{\"ip_prefix\": \"3.4.12.4/32\"}],
            \"ipv6_prefixes\": [{\"ipv6_prefix\": \"2600:1f01::/48\"}]
        }";
    let (v4, _) = cidrs(j, "prefixes[].ip_prefix");
    let (_, v6) = cidrs(j, "ipv6_prefixes[].ipv6_prefix");
    assert_eq!(v4.len(), 1);
    assert_eq!(v6.len(), 1);
}

#[test]
fn array_key_extraction() {
    assert_eq!(array_key("web"), "web");
    assert_eq!(array_key("prefixes[].ipv4Prefix"), "prefixes");
    assert_eq!(array_key("ipv6_prefixes[].ipv6_prefix"), "ipv6_prefixes");
}

#[test]
fn ranges_are_read_exactly() {
    let (v4, v6) = cidrs("{\"a\": [\"1.2.3.4/24\", \"2001:db8::1/32\", \"::1:2/128\"]}", "a");
    assert_eq!(v4, [net4([1, 2, 3, 4], 24)]);
    assert_eq!(
        v6,
        [
            Ipv6Net {
                addr: Ipv6Addr { segments: [0x2001, 0xdb8, 0, 0, 0, 0, 0, 1] },
                prefix_len: 32,
            },
            Ipv6Net { addr: Ipv6Addr { segments: [0, 0, 0, 0, 0, 0, 1, 2] }, prefix_len: 128 },
        ]
    );
}

#[test]
fn what_is_no_range_is_skipped() {
    let j = "{\"a\": [\"1.2.3.0/33\", \"1.2.3/24\", \"x\", 7, null, [\"1.1.1.0/24\"],
        \"1.2.3.4\", \"01.2.3.0/24\", \"1.2.3.0/024\", \"::/129\", \"1:2::/x\", \"0.0.0.0/0\"]}";
    let (v4, v6) = cidrs(j, "a");
    assert_eq!(v4, [net4([1, 2, 3, 0], 24), net4([0, 0, 0, 0], 0)]);
    assert_eq!(v6.len(), 0);
}

#[test]
fn keys_select_only_their_form() {
    let j = "{\"a\": [\"x\", {\"f\": \"y\"}, {\"f\": 1}, {\"g\": \"z\"}], \"b\": \"x\"}";
    assert_eq!(extract_cidrs(&json(j), "a"), ["x"]);
    assert_eq!(extract_cidrs(&json(j), "a[].f"), ["y"]);
    assert_eq!(extract_cidrs(&json(j), "a[].f[].g"), Vec::<String>::new());
    assert_eq!(extract_cidrs(&json(j), "b"), Vec::<String>::new());
    assert_eq!(extract_cidrs(&json(j), "c"), Vec::<String>::new());
    assert_eq!(extract_cidrs(&json("[\"x\"]"), "a"), Vec::<String>::new());
}

#[test]
fn the_last_of_equal_fields_counts() {
    let j = "{\"a\": [\"x\"], \"a\": [\"y\"]}";
    assert_eq!(extract_cidrs(&json(j), "a"), ["y"]);
}

#[test]
fn invalid_json_is_an_error() {
    assert!(read_json(b"{").is_none());
    assert!(read_json(b"").is_none());
    match read_ip_list(b"{\"web\": [}", &spec(&["web"])) {
        Err(IpListError::InvalidJson) => {}
        other => panic!("{:?}", other),
    }
}

#[test]
fn the_first_missing_array_is_named() {
    let body = b"{\"web\": [\"1.2.3.0/24\"], \"api\": 1}";
    match read_ip_list(body, &spec(&["web", "api[].x", "git"])) {
        Err(IpListError::MissingArray(name)) => assert_eq!(name, "api"),
        other => panic!("{:?}", other),
    }
    match read_ip_list(b"7", &spec(&["web"])) {
        Err(IpListError::MissingArray(name)) => assert_eq!(name, "web"),
        other => panic!("{:?}", other),
    }
}

#[test]
fn no_usable_range_is_an_error() {
    match read_ip_list(b"{\"web\": [\"x\"]}", &spec(&["web"])) {
        Err(IpListError::NoRanges) => {}
        other => panic!("{:?}", other),
    }
}

#[test]
fn ranges_of_all_keys_are_aggregated() {
    let body = b"{\"web\": [\"10.0.0.0/25\", \"2001:db8::/33\"],
        \"api\": [\"10.0.0.128/25\", \"10.0.0.7/32\", \"2001:db8:8000::/33\"]}";
    match read_ip_list(body, &spec(&["web", "api"])) {
        Ok(ranges) => {
            assert_eq!(ranges.v4, [net4([10, 0, 0, 0], 24)]);
            assert_eq!(
                ranges.v6,
                [Ipv6Net {
                    addr: Ipv6Addr { segments: [0x2001, 0xdb8, 0, 0, 0, 0, 0, 0] },
                    prefix_len: 32,
                }]
            );
        }
        Err(e) => panic!("{:?}", e),
    }
}

#[test]
fn selection_works_on_plain_documents() {
    let j = json("{\"a\": [\"192.0.2.0/24\"]}");
    match select_ranges(&j, &vec!["a".to_string()]) {
        Ok(ranges) => {
            assert_eq!(ranges.v4, [net4([192, 0, 2, 0], 24)]);
            assert!(ranges.v6.is_empty());
        }
        Err(e) => panic!("{:?}", e),
    }
}

#[test]
fn lists_that_failed_are_left_out_of_the_merge() {
    let lists = vec![
        Some(IpRanges { v4: vec![net4([10, 0, 0, 0], 9)], v6: vec![] }),
        None,
        Some(IpRanges { v4: vec![net4([10, 128, 0, 0], 9), net4([192, 0, 2, 0], 24)], v6: vec![] }),
    ];
    let merged = merge_ranges(&lists);
    assert_eq!(merged.v4, [net4([10, 0, 0, 0], 8), net4([192, 0, 2, 0], 24)]);
    assert!(merged.v6.is_empty());
    let nothing = merge_ranges(&vec![None, None]);
    assert!(nothing.v4.is_empty() && nothing.v6.is_empty());
}

#[test]
fn seeded_ranges_do_not_overlap() {
    let body = b"{\"a\": [\"10.0.0.0/24\", \"10.0.0.128/25\", \"10.0.0.0/23\", \"10.0.4.0/24\"]}";
    match read_ip_list(body, &spec(&["a"])) {
        Ok(ranges) => {
            assert_eq!(ranges.v4, [net4([10, 0, 0, 0], 23), net4([10, 0, 4, 0], 24)]);
        }
        Err(e) => panic!("{:?}", e),
    }
}
