use castellan::addr::{IpAddr, Ipv4Addr, Ipv6Addr};
use castellan::net::{Ipv4Net, Ipv6Net};
use castellan::nft::{
    availability_result, build_injection, build_ruleset, existence_result, script_result, Nft,
    RulesetParams, RunOutcome, SET_ALLOWED_V4, SET_ALLOWED_V6, TABLE,
};

fn ip4(octets: [u8; 4]) -> IpAddr {
    IpAddr::V4(Ipv4Addr { octets })
}

fn ip6(segments: [u16; 8]) -> IpAddr {
    IpAddr::V6(Ipv6Addr { segments })
}

fn bare() -> RulesetParams {
    RulesetParams {
        upstreams: vec![],
        host_networks: vec![],
        static_v4: vec![],
        static_v6: vec![],
        resolver_port: 53,
        intercept: false,
    }
}

const BARE: &str = "table inet castellan {}
delete table inet castellan
table inet castellan {
  set allowed_v4 { type ipv4_addr; flags timeout; }
  set allowed_v6 { type ipv6_addr; flags timeout; }
  set static_v4 { type ipv4_addr; flags interval; }
  set static_v6 { type ipv6_addr; flags interval; }
  chain input {
    type filter hook input priority 0; policy drop;
    ct state established,related accept
    iif \"lo\" accept
  }
  chain output {
    type filter hook output priority 0; policy drop;
    ct state established,related accept
    oif \"lo\" accept
    ip daddr @static_v4 accept
    ip6 daddr @static_v6 accept
    ip daddr @allowed_v4 accept
    ip6 daddr @allowed_v6 accept
  }
}
";

const FULL: &str = "table inet castellan {}
delete table inet castellan
table inet castellan {
  set allowed_v4 { type ipv4_addr; flags timeout; }
  set allowed_v6 { type ipv6_addr; flags timeout; }
  set static_v4 { type ipv4_addr; flags interval; elements = { 10.0.0.0/8, 192.0.2.0/24 }; }
  set static_v6 { type ipv6_addr; flags interval; elements = { 2001:db8::/32 }; }
  chain input {
    type filter hook input priority 0; policy drop;
    ct state established,related accept
    iif \"lo\" accept
    ip saddr 172.17.0.0/24 accept
    ip6 saddr fd00::/64 accept
  }
  chain output {
    type filter hook output priority 0; policy drop;
    ct state established,related accept
    oif \"lo\" accept
    ip daddr 8.8.8.8 udp dport 53 accept
    ip daddr 8.8.8.8 tcp dport 53 accept
    ip6 daddr 2001:4860:4860::8888 udp dport 53 accept
    ip6 daddr 2001:4860:4860::8888 tcp dport 53 accept
    ip daddr 172.17.0.0/24 accept
    ip6 daddr fd00::/64 accept
    ip daddr @static_v4 accept
    ip6 daddr @static_v6 accept
    ip daddr @allowed_v4 accept
    ip6 daddr @allowed_v6 accept
  }
  chain nat_output {
    type nat hook output priority -100; policy accept;
    meta skuid 0 return
    ip daddr 127.0.0.0/8 return
    ip6 daddr ::1 return
    meta l4proto { tcp, udp } th dport 53 redirect to :5353
  }
}
";

fn full() -> RulesetParams {
    RulesetParams {
        upstreams: vec![
            ip4([8, 8, 8, 8]),
            ip4([127, 0, 0, 11]),
            ip6([0x2001, 0x4860, 0x4860, 0, 0, 0, 0, 0x8888]),
            ip6([0, 0, 0, 0, 0, 0, 0, 1]),
        ],
        host_networks: vec!["172.17.0.0/24".to_string(), "fd00::/64".to_string()],
        static_v4: vec![
            Ipv4Net { addr: Ipv4Addr { octets: [10, 0, 0, 0] }, prefix_len: 8 },
            Ipv4Net { addr: Ipv4Addr { octets: [192, 0, 2, 0] }, prefix_len: 24 },
        ],
        static_v6: vec![Ipv6Net {
            addr: Ipv6Addr { segments: [0x2001, 0xdb8, 0, 0, 0, 0, 0, 0] },
            prefix_len: 32,
        }],
        resolver_port: 5353,
        intercept: true,
    }
}

#[test]
fn bare_ruleset_text() {
    assert_eq!(build_ruleset(&bare()), BARE);
}

#[test]
fn full_ruleset_text() {
    assert_eq!(build_ruleset(&full()), FULL);
}

#[test]
fn interception_is_installed_only_on_demand() {
    let mut p = full();
    assert!(build_ruleset(&p).contains("\n  chain nat_output {\n"));
    p.intercept = false;
    assert!(!build_ruleset(&p).contains("nat_output"));
}

#[test]
fn loopback_upstreams_need_no_rule() {
    let mut p = bare();
    p.upstreams = vec![ip4([127, 0, 0, 11]), ip4([127, 255, 1, 2]), ip6([0, 0, 0, 0, 0, 0, 0, 1])];
    assert_eq!(build_ruleset(&p), BARE);
    p.upstreams = vec![ip6([0, 0, 0, 0, 0, 0, 1, 1])];
    assert!(build_ruleset(&p).contains("    ip6 daddr ::1:1 udp dport 53 accept\n"));
}

#[test]
fn injection_names_both_families() {
    let v4 = [Ipv4Addr { octets: [1, 2, 3, 4] }, Ipv4Addr { octets: [5, 6, 7, 8] }];
    let v6 = [Ipv6Addr { segments: [0x2001, 0xdb8, 0, 0, 0, 0, 0, 1] }];
    assert_eq!(
        build_injection(&v4, &v6, 300).unwrap(),
        "add element inet castellan allowed_v4 { 1.2.3.4 timeout 300s, 5.6.7.8 timeout 300s }\n\
         add element inet castellan allowed_v6 { 2001:db8::1 timeout 300s }\n"
    );
    assert_eq!(
        build_injection(&v4[..1], &[], 120).unwrap(),
        "add element inet castellan allowed_v4 { 1.2.3.4 timeout 120s }\n"
    );
    assert_eq!(
        build_injection(&[], &v6, 18446744073709551615).unwrap(),
        "add element inet castellan allowed_v6 { 2001:db8::1 timeout 18446744073709551615s }\n"
    );
    assert!(build_injection(&[], &[], 120).is_none());
}

#[test]
fn runs_of_the_binary() {
    let nft = Nft::default();
    let r = nft.check_available();
    assert_eq!((r.program.as_str(), r.stdin), ("nft", None));
    assert_eq!(r.args, ["list", "tables"]);
    let r = nft.table_exists();
    assert_eq!(r.args, ["list", "table", "inet", "castellan"]);
    let r = nft.intercept_active();
    assert_eq!(r.args, ["list", "chain", "inet", "castellan", "nat_output"]);
    assert_eq!(r.stdin, None);
    let r = nft.clone().apply_ruleset(&full());
    assert_eq!((r.program.as_str(), r.stdin.as_deref()), ("nft", Some(FULL)));
    assert_eq!(r.args, ["-f", "-"]);
}

#[test]
fn adding_no_address_runs_nothing() {
    let nft = Nft::default();
    assert!(nft.add_addrs(&[], &[], 60).is_none());
    let r = nft.add_addrs(&[Ipv4Addr { octets: [9, 9, 9, 9] }], &[], 60).unwrap();
    assert_eq!(
        r.stdin.as_deref(),
        Some("add element inet castellan allowed_v4 { 9.9.9.9 timeout 60s }\n")
    );
    assert_eq!(r.args, ["-f", "-"]);
}

#[test]
fn names_of_table_and_sets() {
    assert_eq!(TABLE, "castellan");
    assert_eq!(SET_ALLOWED_V4, "allowed_v4");
    assert_eq!(SET_ALLOWED_V6, "allowed_v6");
}

#[test]
fn interception_is_one_block_of_text() {
    let with = build_ruleset(&full());
    let mut p = full();
    p.intercept = false;
    p.resolver_port = 1;
    let without = build_ruleset(&p);
    assert!(!without.contains("nat_output") && !without.contains("redirect"));
    let shared = without.strip_suffix("}\n").unwrap();
    let rest = with.strip_prefix(shared).unwrap();
    assert_eq!(
        rest,
        "  chain nat_output {\n    type nat hook output priority -100; policy accept;\n    \
         meta skuid 0 return\n    ip daddr 127.0.0.0/8 return\n    ip6 daddr ::1 return\n    \
         meta l4proto { tcp, udp } th dport 53 redirect to :5353\n  }\n}\n"
    );
}

#[test]
fn no_port_is_open_to_every_destination() {
    for p in [bare(), full()] {
        for line in build_ruleset(&p).lines().filter(|l| l.contains("dport")) {
            assert!(line.contains(" daddr ") || line.contains("redirect"), "{}", line);
        }
    }
}

fn exited(succeeded: bool, status: &str, stderr: &str) -> RunOutcome {
    RunOutcome::Exited { succeeded, status: status.to_string(), stderr: stderr.to_string() }
}

#[test]
fn a_script_is_applied_if_nft_succeeds() {
    let run = Nft::default().apply_ruleset(&bare());
    assert_eq!(script_result(&run, &exited(true, "exit status: 0", "a warning")), Ok(()));
    assert_eq!(
        script_result(&run, &exited(false, "exit status: 1", " \nError: x\n")),
        Err(format!("nft script failed (exit status: 1): Error: x\n--- script ---\n{}", BARE))
    );
    assert_eq!(
        script_result(&run, &RunOutcome::NotStarted),
        Err("spawning `nft -f -`".to_string())
    );
    assert_eq!(
        script_result(&run, &RunOutcome::NotWritten),
        Err("writing nft script to stdin".to_string())
    );
    assert_eq!(script_result(&run, &RunOutcome::NotWaited), Err("waiting for nft".to_string()));
}

#[test]
fn nftables_is_usable_if_it_lists_its_tables() {
    let run = Nft::default().check_available();
    assert_eq!(availability_result(&run, &exited(true, "exit status: 0", "")), Ok(()));
    assert_eq!(
        availability_result(&run, &exited(false, "exit status: 1", "denied\n")),
        Err("`nft list tables` failed (exit status: 1). The host kernel likely does not expose \
             nf_tables (modules cannot be loaded from inside the container). stderr: denied"
            .to_string())
    );
    assert_eq!(
        availability_result(&run, &RunOutcome::NotStarted),
        Err("failed to run `nft` — is the nftables package installed?".to_string())
    );
}

#[test]
fn what_can_be_listed_exists() {
    assert_eq!(existence_result(&exited(true, "", "")), Some(true));
    assert_eq!(existence_result(&exited(false, "", "No such file")), Some(false));
    assert_eq!(existence_result(&RunOutcome::NotStarted), None);
}
