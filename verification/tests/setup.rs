use castellan::addr::{IpAddr, Ipv4Addr, Ipv6Addr};
use castellan::meta::IpRanges;
use castellan::net::Ipv4Net;
use castellan::nft::Nft;
use castellan::setup::{
    apply_ruleset, choose_upstreams, detect_host_networks, recover_upstreams, repoint_resolv_conf,
    resolve_upstreams, route_localnet_is_set, upstreams_in, RecoveryError, UpstreamSource,
    PATTERNS_FALLBACK, READY_PATH,
};

fn ip4(octets: [u8; 4]) -> IpAddr {
    IpAddr::V4(Ipv4Addr { octets })
}

#[test]
fn nameserver_lines_are_read() {
    let text = "# generated\nsearch lan\nnameserver 8.8.8.8\r\n  nameserver\t2001:db8::1 x\n\
                nameserver\nnameserver bogus\nnameserverx 1.1.1.1\noptions nameserver 2.2.2.2\n\
                nameserver 127.0.0.1\nnameserver 127.0.0.11";
    assert_eq!(
        upstreams_in(text),
        [
            ip4([8, 8, 8, 8]),
            IpAddr::V6(Ipv6Addr { segments: [0x2001, 0xdb8, 0, 0, 0, 0, 0, 1] }),
            ip4([127, 0, 0, 11]),
        ]
    );
}

#[test]
fn live_upstreams_are_backed_up() {
    match resolve_upstreams("nameserver 127.0.0.11\nnameserver 127.0.0.1\nnameserver ::1\n") {
        UpstreamSource::Live { upstreams, backup } => {
            assert_eq!(upstreams.len(), 2);
            assert_eq!(backup, "nameserver 127.0.0.11\nnameserver ::1\n");
        }
        UpstreamSource::Backup => panic!("live upstreams were not seen"),
    }
}

#[test]
fn a_restart_recovers_the_upstreams() {
    let first = "nameserver 10.0.0.2\nnameserver fe80::1\nnameserver 127.0.0.1\n";
    let (upstreams, backup) = match resolve_upstreams(first) {
        UpstreamSource::Live { upstreams, backup } => (upstreams, backup),
        UpstreamSource::Backup => panic!("live upstreams were not seen"),
    };
    match resolve_upstreams(repoint_resolv_conf()) {
        UpstreamSource::Live { .. } => panic!("the daemon forwards to itself"),
        UpstreamSource::Backup => {}
    }
    assert_eq!(recover_upstreams(Some(&backup)), Ok(upstreams));
}

#[test]
fn recovery_fails_loudly() {
    assert_eq!(recover_upstreams(None), Err(RecoveryError::NoBackup));
    assert_eq!(recover_upstreams(Some("")), Err(RecoveryError::EmptyBackup));
    assert_eq!(
        recover_upstreams(Some("nameserver 127.0.0.1\n")),
        Err(RecoveryError::EmptyBackup)
    );
}

#[test]
fn resolv_conf_points_at_the_listener() {
    assert_eq!(repoint_resolv_conf(), "nameserver 127.0.0.1\n");
}

#[test]
fn the_network_of_the_gateway_is_detected() {
    let routes = "default via 172.17.0.1 dev eth0\n172.17.0.0/16 dev eth0 scope link\n";
    assert_eq!(detect_host_networks(routes), ["172.17.0.0/24"]);
    assert_eq!(
        detect_host_networks("default via 10.1.2.3\ndefault via   192.168.9.254 metric 1\n"),
        ["10.1.2.0/24", "192.168.9.0/24"]
    );
    assert!(detect_host_networks("default via fe80::1 dev eth0\n").is_empty());
    assert!(detect_host_networks("default via \n default via 1.2.3.4\ndefault dev x\n").is_empty());
    assert!(detect_host_networks("").is_empty());
}

#[test]
fn route_localnet_is_one() {
    assert!(route_localnet_is_set("1\n"));
    assert!(route_localnet_is_set(" 1 "));
    assert!(!route_localnet_is_set("0\n"));
    assert!(!route_localnet_is_set(""));
    assert!(!route_localnet_is_set("11"));
}

#[test]
fn the_ruleset_is_built_from_what_was_found() {
    let v4 = vec![
        Ipv4Net { addr: Ipv4Addr { octets: [10, 0, 0, 0] }, prefix_len: 9 },
        Ipv4Net { addr: Ipv4Addr { octets: [10, 128, 0, 0] }, prefix_len: 9 },
    ];
    let lists = vec![None, Some(IpRanges { v4, v6: vec![] })];
    let routes = "default via 172.17.0.1 dev eth0\n";
    let run = apply_ruleset(&Nft::default(), vec![ip4([9, 9, 9, 9])], routes, &lists, 53);
    assert_eq!(run.args, ["-f", "-"]);
    let script = run.stdin.unwrap();
    assert!(script.starts_with(
        "table inet castellan {}\ndelete table inet castellan\ntable inet castellan {\n"
    ));
    assert!(script.contains("elements = { 10.0.0.0/8 }; }\n"));
    assert!(script.contains("    ip saddr 172.17.0.0/24 accept\n"));
    assert!(script.contains("    ip daddr 172.17.0.0/24 accept\n"));
    assert!(script.contains("    ip daddr 9.9.9.9 udp dport 53 accept\n"));
    assert!(script.contains("    ip daddr 9.9.9.9 tcp dport 53 accept\n"));
    assert!(script.contains(" redirect to :53\n"));
}

#[test]
fn well_known_paths() {
    assert_eq!(READY_PATH, "/run/castellan/ready");
    assert_eq!(PATTERNS_FALLBACK, "/usr/local/share/castellan/allowed-domains.txt");
}

#[test]
fn given_upstreams_win() {
    let given = vec![ip4([9, 9, 9, 9]), ip4([1, 1, 1, 1])];
    assert_eq!(choose_upstreams(given.clone()), Some(given));
    assert_eq!(choose_upstreams(vec![]), None);
}
