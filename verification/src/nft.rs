//! nftables backend: builds the egress ruleset and the scripts that inject resolved IPs into
//! the dynamic allow-sets.
//!
//! The `nft` binary is invoked rather than a netlink crate: per-element TTL timeouts (the core
//! feature) are first-class and well-documented in the CLI but poorly supported over raw
//! netlink. All mutations are fed via `nft -f -` (stdin), so each apply is a single atomic
//! transaction.

use vstd::prelude::*;

use crate::addr::{format_ip, format_v4, format_v6, ip_text, v4_text, v6_text};
use crate::addr::{IpAddr, Ipv4Addr, Ipv6Addr};
use crate::net::{format_v4_net, format_v6_net, v4_net_text, v6_net_text, Ipv4Net, Ipv6Net};
use crate::text::{
    chars_of, decimal, has_char, join, joined, lined, opt_text, push_all, push_str, push_string,
    rows, string_of, texts, to_numeral, trim, trimmed, write_lines,
};

verus! {

/// The single `inet` table holding all of our chains and sets.
pub const TABLE: &'static str = "castellan";

/// The set of resolved IPv4 addresses.
pub const SET_ALLOWED_V4: &'static str = "allowed_v4";

/// The set of resolved IPv6 addresses.
pub const SET_ALLOWED_V6: &'static str = "allowed_v6";

/// The set of seeded IPv4 ranges.
pub const SET_STATIC_V4: &'static str = "static_v4";

/// The set of seeded IPv6 ranges.
pub const SET_STATIC_V6: &'static str = "static_v6";

/// Inputs needed to build the ruleset.
pub struct RulesetParams {
    /// Upstream DNS server addresses the daemon forwards to (their `:53` is allowed out).
    pub upstreams: Vec<IpAddr>,
    /// Host networks to allow unconditionally (e.g. the Docker host /24), as CIDR strings.
    pub host_networks: Vec<String>,
    /// Static IPv4 CIDRs to seed (e.g. GitHub meta ranges).
    pub static_v4: Vec<Ipv4Net>,
    /// Static IPv6 CIDRs to seed.
    pub static_v6: Vec<Ipv6Net>,
    /// Port the local resolver listens on (used by the DNS-redirect rule).
    pub resolver_port: u16,
    /// When true, install the NAT chain that transparently redirects egress :53 to the
    /// local resolver. Enabled only after the daemon is confirmed listening.
    pub intercept: bool,
}

/// Inputs needed to build the ruleset.
#[verifier::ext_equal]
pub struct Rules {
    pub upstreams: Seq<IpAddr>,
    pub host_networks: Seq<Seq<char>>,
    pub static_v4: Seq<Ipv4Net>,
    pub static_v6: Seq<Ipv6Net>,
    pub resolver_port: u16,
    pub intercept: bool,
}

impl View for RulesetParams {
    type V = Rules;

    open spec fn view(&self) -> Rules {
        Rules {
            upstreams: self.upstreams@,
            host_networks: texts(self.host_networks@),
            static_v4: self.static_v4@,
            static_v6: self.static_v6@,
            resolver_port: self.resolver_port,
            intercept: self.intercept,
        }
    }
}

/// An address that never leaves the host: `127.0.0.0/8` or `::1`.
pub open spec fn is_loopback(a: IpAddr) -> bool {
    match a {
        IpAddr::V4(a) => a.octets[0] == 127,
        IpAddr::V6(a) => {
            &&& forall|i: int| 0 <= i < 7 ==> #[trigger] a.segments[i] == 0
            &&& a.segments[7] == 1
        },
    }
}

/// The lines that replace the table: `delete` of a missing table is an error, so the table is
/// created first.
pub open spec fn table_lines() -> Seq<Seq<char>> {
    seq![
        "table inet "@ + TABLE@ + " {}"@,
        "delete table inet "@ + TABLE@,
        "table inet "@ + TABLE@ + " {"@,
    ]
}

/// The line that declares a set whose elements expire.
pub open spec fn dynamic_set(name: Seq<char>, kind: Seq<char>) -> Seq<char> {
    "  set "@ + name + " { type "@ + kind + "; flags timeout; }"@
}

/// The line that declares a set of ranges that never expire.
pub open spec fn static_set(name: Seq<char>, kind: Seq<char>, elements: Seq<Seq<char>>) -> Seq<
    char,
> {
    if elements.len() == 0 {
        "  set "@ + name + " { type "@ + kind + "; flags interval;"@ + " }"@
    } else {
        "  set "@ + name + " { type "@ + kind + "; flags interval;"@ + " elements = { "@ + joined(
            elements,
            ", "@,
        ) + " };"@ + " }"@
    }
}

/// The texts of IPv4 ranges.
pub open spec fn v4_net_texts(nets: Seq<Ipv4Net>) -> Seq<Seq<char>> {
    Seq::new(nets.len(), |i: int| v4_net_text(nets[i]))
}

/// The texts of IPv6 ranges.
pub open spec fn v6_net_texts(nets: Seq<Ipv6Net>) -> Seq<Seq<char>> {
    Seq::new(nets.len(), |i: int| v6_net_text(nets[i]))
}

/// The lines that declare the sets.
pub open spec fn set_lines(static_v4: Seq<Ipv4Net>, static_v6: Seq<Ipv6Net>) -> Seq<Seq<char>> {
    seq![
        dynamic_set(SET_ALLOWED_V4@, "ipv4_addr"@),
        dynamic_set(SET_ALLOWED_V6@, "ipv6_addr"@),
        static_set(SET_STATIC_V4@, "ipv4_addr"@, v4_net_texts(static_v4)),
        static_set(SET_STATIC_V6@, "ipv6_addr"@, v6_net_texts(static_v6)),
    ]
}

/// The rule that accepts packets whose `side` (`saddr` or `daddr`) is in the network `net`.
pub open spec fn host_rule(side: Seq<char>, net: Seq<char>) -> Seq<char> {
    if net.contains(':') {
        "    ip6 "@ + side + " "@ + net + " accept"@
    } else {
        "    ip "@ + side + " "@ + net + " accept"@
    }
}

/// The rules for the host networks.
pub open spec fn host_rules(side: Seq<char>, nets: Seq<Seq<char>>) -> Seq<Seq<char>> {
    Seq::new(nets.len(), |i: int| host_rule(side, nets[i]))
}

/// Input chain: default drop, allow established/loopback/host-network.
pub open spec fn input_lines(nets: Seq<Seq<char>>) -> Seq<Seq<char>> {
    seq![
        "  chain input {"@,
        "    type filter hook input priority 0; policy drop;"@,
        "    ct state established,related accept"@,
        "    iif \"lo\" accept"@,
    ] + host_rules("saddr"@, nets) + seq!["  }"@]
}

/// The rule that lets DNS over `protocol` out to the upstream `a`.
pub open spec fn upstream_rule(a: IpAddr, protocol: Seq<char>) -> Seq<char> {
    match a {
        IpAddr::V4(_) => "    ip daddr "@ + ip_text(a) + " "@ + protocol + " dport 53 accept"@,
        IpAddr::V6(_) => "    ip6 daddr "@ + ip_text(a) + " "@ + protocol + " dport 53 accept"@,
    }
}

/// The rules that let DNS out to the upstreams. A loopback upstream (e.g. Docker's
/// `127.0.0.11`) needs none: it is covered by `oif lo`.
pub open spec fn upstream_rules(upstreams: Seq<IpAddr>) -> Seq<Seq<char>>
    decreases upstreams.len(),
{
    if upstreams.len() == 0 {
        Seq::empty()
    } else {
        let front = upstream_rules(upstreams.drop_last());
        let a = upstreams.last();
        if is_loopback(a) {
            front
        } else {
            front.push(upstream_rule(a, "udp"@)).push(upstream_rule(a, "tcp"@))
        }
    }
}

/// The rule that lets everything out to the members of a set.
pub open spec fn set_rule(family: Seq<char>, name: Seq<char>) -> Seq<char> {
    "    "@ + family + " daddr @"@ + name + " accept"@
}

/// Output chain: default drop; this is the egress enforcement point.
pub open spec fn output_lines(upstreams: Seq<IpAddr>, nets: Seq<Seq<char>>) -> Seq<Seq<char>> {
    seq![
        "  chain output {"@,
        "    type filter hook output priority 0; policy drop;"@,
        "    ct state established,related accept"@,
        "    oif \"lo\" accept"@,
    ] + upstream_rules(upstreams) + host_rules("daddr"@, nets) + seq![
        set_rule("ip"@, SET_STATIC_V4@),
        set_rule("ip6"@, SET_STATIC_V6@),
        set_rule("ip"@, SET_ALLOWED_V4@),
        set_rule("ip6"@, SET_ALLOWED_V6@),
        "  }"@,
    ]
}

/// NAT chain: transparently redirect all egress DNS to the local resolver so even processes
/// with a hardcoded resolver get their queries seen (and thus their IPs authorized). The
/// daemon itself (uid 0) is exempted so its upstream queries escape.
pub open spec fn nat_lines(port: u16) -> Seq<Seq<char>> {
    seq![
        "  chain nat_output {"@,
        "    type nat hook output priority -100; policy accept;"@,
        "    meta skuid 0 return"@,
        "    ip daddr 127.0.0.0/8 return"@,
        "    ip6 daddr ::1 return"@,
        "    meta l4proto { tcp, udp } th dport 53 redirect to :"@ + decimal(port as nat),
        "  }"@,
    ]
}

/// The lines of the full ruleset.
pub open spec fn ruleset_lines(p: Rules) -> Seq<Seq<char>> {
    table_lines() + set_lines(p.static_v4, p.static_v6) + input_lines(p.host_networks)
        + output_lines(p.upstreams, p.host_networks) + (if p.intercept {
        nat_lines(p.resolver_port)
    } else {
        Seq::empty()
    }) + seq!["}"@]
}

/// Appends a line.
fn push_line(lines: &mut Vec<Vec<char>>, line: Vec<char>)
    ensures
        rows(final(lines)@) == rows(old(lines)@).push(line@),
{
    let ghost before = lines@;
    lines.push(line);
    assert(rows(lines@) == rows(before).push(line@));
}

/// Appends the line `a`.
fn push_text(lines: &mut Vec<Vec<char>>, a: &str)
    ensures
        rows(final(lines)@) == rows(old(lines)@).push(a@),
{
    push_line(lines, chars_of(a));
}

/// Appends the line that `a` and `b` make.
fn push_pair(lines: &mut Vec<Vec<char>>, a: &str, b: &[char])
    ensures
        rows(final(lines)@) == rows(old(lines)@).push(a@ + b@),
{
    let mut line: Vec<char> = chars_of(a);
    push_all(&mut line, b);
    push_line(lines, line);
}

/// Appends the line that `a`, `b` and `c` make.
fn push_triple(lines: &mut Vec<Vec<char>>, a: &str, b: &str, c: &str)
    ensures
        rows(final(lines)@) == rows(old(lines)@).push(a@ + b@ + c@),
{
    let mut line: Vec<char> = chars_of(a);
    push_str(&mut line, b);
    push_str(&mut line, c);
    push_line(lines, line);
}

/// Tests whether an address is a loopback address.
fn loopback(a: &IpAddr) -> (r: bool)
    ensures
        r == is_loopback(*a),
{
    match a {
        IpAddr::V4(a) => a.octets[0] == 127,
        IpAddr::V6(a) => {
            let g: &[u16; 8] = &a.segments;
            g[0] == 0 && g[1] == 0 && g[2] == 0 && g[3] == 0 && g[4] == 0 && g[5] == 0 && g[6] == 0
                && g[7] == 1
        },
    }
}

/// Appends the lines that replace the table.
fn push_table(lines: &mut Vec<Vec<char>>)
    ensures
        rows(final(lines)@) == rows(old(lines)@) + table_lines(),
{
    push_triple(lines, "table inet ", TABLE, " {}");
    push_pair(lines, "delete table inet ", chars_of(TABLE).as_slice());
    push_triple(lines, "table inet ", TABLE, " {");
}

/// Appends the line that declares a set whose elements expire.
fn push_dynamic_set(lines: &mut Vec<Vec<char>>, name: &str, kind: &str)
    ensures
        rows(final(lines)@) == rows(old(lines)@).push(dynamic_set(name@, kind@)),
{
    let mut line: Vec<char> = chars_of("  set ");
    push_str(&mut line, name);
    push_str(&mut line, " { type ");
    push_str(&mut line, kind);
    push_str(&mut line, "; flags timeout; }");
    push_line(lines, line);
}

/// Appends the line that declares a set of ranges.
fn push_static_set(lines: &mut Vec<Vec<char>>, name: &str, kind: &str, elements: &Vec<Vec<char>>)
    ensures
        rows(final(lines)@) == rows(old(lines)@).push(
            static_set(name@, kind@, rows(elements@)),
        ),
{
    let mut line: Vec<char> = chars_of("  set ");
    push_str(&mut line, name);
    push_str(&mut line, " { type ");
    push_str(&mut line, kind);
    push_str(&mut line, "; flags interval;");
    if elements.len() > 0 {
        let list: Vec<char> = join(elements, ", ");
        push_str(&mut line, " elements = { ");
        push_all(&mut line, list.as_slice());
        push_str(&mut line, " };");
    }
    push_str(&mut line, " }");
    push_line(lines, line);
}

/// Writes IPv4 ranges.
fn write_v4_nets(nets: &Vec<Ipv4Net>) -> (out: Vec<Vec<char>>)
    ensures
        rows(out@) == v4_net_texts(nets@),
{
    let mut out: Vec<Vec<char>> = Vec::new();
    let mut i: usize = 0;
    while i < nets.len()
        invariant
            i <= nets@.len(),
            out@.len() == i,
            forall|j: int| 0 <= j < i ==> (#[trigger] out@[j])@ == v4_net_text(nets@[j]),
        decreases nets@.len() - i,
    {
        out.push(format_v4_net(&nets[i]));
        i = i + 1;
    }
    out
}

/// Writes IPv6 ranges.
fn write_v6_nets(nets: &Vec<Ipv6Net>) -> (out: Vec<Vec<char>>)
    ensures
        rows(out@) == v6_net_texts(nets@),
{
    let mut out: Vec<Vec<char>> = Vec::new();
    let mut i: usize = 0;
    while i < nets.len()
        invariant
            i <= nets@.len(),
            out@.len() == i,
            forall|j: int| 0 <= j < i ==> (#[trigger] out@[j])@ == v6_net_text(nets@[j]),
        decreases nets@.len() - i,
    {
        out.push(format_v6_net(&nets[i]));
        i = i + 1;
    }
    out
}

/// Appends the lines that declare the sets.
fn push_sets(lines: &mut Vec<Vec<char>>, static_v4: &Vec<Ipv4Net>, static_v6: &Vec<Ipv6Net>)
    ensures
        rows(final(lines)@) == rows(old(lines)@) + set_lines(static_v4@, static_v6@),
{
    push_dynamic_set(lines, SET_ALLOWED_V4, "ipv4_addr");
    push_dynamic_set(lines, SET_ALLOWED_V6, "ipv6_addr");
    push_static_set(lines, SET_STATIC_V4, "ipv4_addr", &write_v4_nets(static_v4));
    push_static_set(lines, SET_STATIC_V6, "ipv6_addr", &write_v6_nets(static_v6));
}

/// Appends the rules for the host networks.
fn push_host_rules(lines: &mut Vec<Vec<char>>, side: &str, nets: &Vec<String>)
    ensures
        rows(final(lines)@) == rows(old(lines)@) + host_rules(side@, texts(nets@)),
{
    let ghost before = rows(lines@);
    let ghost rules = host_rules(side@, texts(nets@));
    let mut i: usize = 0;
    while i < nets.len()
        invariant
            i <= nets@.len(),
            rules == host_rules(side@, texts(nets@)),
            rows(lines@) == before + rules.take(i as int),
        decreases nets@.len() - i,
    {
        let net: Vec<char> = chars_of(nets[i].as_str());
        let mut line: Vec<char> = if has_char(net.as_slice(), ':') {
            chars_of("    ip6 ")
        } else {
            chars_of("    ip ")
        };
        push_str(&mut line, side);
        push_str(&mut line, " ");
        push_all(&mut line, net.as_slice());
        push_str(&mut line, " accept");
        assert(line@ == rules[i as int]);
        push_line(lines, line);
        assert(rules.take(i + 1) == rules.take(i as int).push(rules[i as int]));
        i = i + 1;
    }
    assert(rules.take(i as int) == rules);
}

/// Appends the input chain.
fn push_input(lines: &mut Vec<Vec<char>>, nets: &Vec<String>)
    ensures
        rows(final(lines)@) == rows(old(lines)@) + input_lines(texts(nets@)),
{
    push_text(lines, "  chain input {");
    push_text(lines, "    type filter hook input priority 0; policy drop;");
    push_text(lines, "    ct state established,related accept");
    push_text(lines, "    iif \"lo\" accept");
    push_host_rules(lines, "saddr", nets);
    push_text(lines, "  }");
}

/// Appends the rule that lets DNS over `protocol` out to the upstream `a`.
fn push_upstream_rule(lines: &mut Vec<Vec<char>>, a: &IpAddr, protocol: &str)
    ensures
        rows(final(lines)@) == rows(old(lines)@).push(upstream_rule(*a, protocol@)),
{
    let mut line: Vec<char> = match a {
        IpAddr::V4(_) => chars_of("    ip daddr "),
        IpAddr::V6(_) => chars_of("    ip6 daddr "),
    };
    push_all(&mut line, format_ip(a).as_slice());
    push_str(&mut line, " ");
    push_str(&mut line, protocol);
    push_str(&mut line, " dport 53 accept");
    push_line(lines, line);
}

/// Appends the rules that let DNS out to the upstreams.
fn push_upstream_rules(lines: &mut Vec<Vec<char>>, upstreams: &Vec<IpAddr>)
    ensures
        rows(final(lines)@) == rows(old(lines)@) + upstream_rules(upstreams@),
{
    let ghost before = rows(lines@);
    let mut i: usize = 0;
    while i < upstreams.len()
        invariant
            i <= upstreams@.len(),
            rows(lines@) == before + upstream_rules(upstreams@.take(i as int)),
        decreases upstreams@.len() - i,
    {
        assert(upstreams@.take(i + 1).drop_last() == upstreams@.take(i as int));
        assert(upstreams@.take(i + 1).last() == upstreams@[i as int]);
        let a: &IpAddr = &upstreams[i];
        if !loopback(a) {
            push_upstream_rule(lines, a, "udp");
            push_upstream_rule(lines, a, "tcp");
        }
        i = i + 1;
    }
    assert(upstreams@.take(i as int) == upstreams@);
}

/// Appends the rule that lets everything out to the members of a set.
fn push_set_rule(lines: &mut Vec<Vec<char>>, family: &str, name: &str)
    ensures
        rows(final(lines)@) == rows(old(lines)@).push(set_rule(family@, name@)),
{
    let mut line: Vec<char> = chars_of("    ");
    push_str(&mut line, family);
    push_str(&mut line, " daddr @");
    push_str(&mut line, name);
    push_str(&mut line, " accept");
    push_line(lines, line);
}

/// Appends the output chain.
fn push_output(lines: &mut Vec<Vec<char>>, upstreams: &Vec<IpAddr>, nets: &Vec<String>)
    ensures
        rows(final(lines)@) == rows(old(lines)@) + output_lines(upstreams@, texts(nets@)),
{
    push_text(lines, "  chain output {");
    push_text(lines, "    type filter hook output priority 0; policy drop;");
    push_text(lines, "    ct state established,related accept");
    push_text(lines, "    oif \"lo\" accept");
    push_upstream_rules(lines, upstreams);
    push_host_rules(lines, "daddr", nets);
    push_set_rule(lines, "ip", SET_STATIC_V4);
    push_set_rule(lines, "ip6", SET_STATIC_V6);
    push_set_rule(lines, "ip", SET_ALLOWED_V4);
    push_set_rule(lines, "ip6", SET_ALLOWED_V6);
    push_text(lines, "  }");
}

/// Appends the NAT chain.
fn push_nat(lines: &mut Vec<Vec<char>>, port: u16)
    ensures
        rows(final(lines)@) == rows(old(lines)@) + nat_lines(port),
{
    push_text(lines, "  chain nat_output {");
    push_text(lines, "    type nat hook output priority -100; policy accept;");
    push_text(lines, "    meta skuid 0 return");
    push_text(lines, "    ip daddr 127.0.0.0/8 return");
    push_text(lines, "    ip6 daddr ::1 return");
    push_pair(
        lines,
        "    meta l4proto { tcp, udp } th dport 53 redirect to :",
        to_numeral(port as u64, 10).as_slice(),
    );
    push_text(lines, "  }");
}

/// Render the full ruleset as an nft script.
pub fn build_ruleset(p: &RulesetParams) -> (s: String)
    ensures
        s@ == lined(ruleset_lines(p@)),
{
    let mut lines: Vec<Vec<char>> = Vec::new();
    push_table(&mut lines);
    push_sets(&mut lines, &p.static_v4, &p.static_v6);
    push_input(&mut lines, &p.host_networks);
    push_output(&mut lines, &p.upstreams, &p.host_networks);
    if p.intercept {
        push_nat(&mut lines, p.resolver_port);
    }
    push_text(&mut lines, "}");
    assert(rows(lines@) =~= ruleset_lines(p@));
    write_lines(&lines)
}

/// Address texts, each with its timeout.
pub open spec fn timed(addrs: Seq<Seq<char>>, timeout_secs: u64) -> Seq<Seq<char>> {
    Seq::new(
        addrs.len(),
        |i: int| addrs[i] + " timeout "@ + decimal(timeout_secs as nat) + "s"@,
    )
}

/// The texts of IPv4 addresses.
pub open spec fn v4_texts(addrs: Seq<Ipv4Addr>) -> Seq<Seq<char>> {
    Seq::new(addrs.len(), |i: int| v4_text(addrs[i]))
}

/// The texts of IPv6 addresses.
pub open spec fn v6_texts(addrs: Seq<Ipv6Addr>) -> Seq<Seq<char>> {
    Seq::new(addrs.len(), |i: int| v6_text(addrs[i]))
}

/// The lines that add elements to a set: none if there are no elements.
pub open spec fn add_lines(set: Seq<char>, elements: Seq<Seq<char>>) -> Seq<Seq<char>> {
    if elements.len() == 0 {
        Seq::empty()
    } else {
        seq!["add element inet "@ + TABLE@ + " "@ + set + " { "@ + joined(elements, ", "@) + " }"@]
    }
}

/// The lines that authorize addresses for `timeout_secs` seconds.
pub open spec fn injection_lines(
    v4: Seq<Ipv4Addr>,
    v6: Seq<Ipv6Addr>,
    timeout_secs: u64,
) -> Seq<Seq<char>> {
    add_lines(SET_ALLOWED_V4@, timed(v4_texts(v4), timeout_secs)) + add_lines(
        SET_ALLOWED_V6@,
        timed(v6_texts(v6), timeout_secs),
    )
}

/// Appends the lines that add elements to a set.
fn push_add(lines: &mut Vec<Vec<char>>, set: &str, elements: &Vec<Vec<char>>)
    ensures
        rows(final(lines)@) == rows(old(lines)@) + add_lines(set@, rows(elements@)),
{
    if elements.len() > 0 {
        let list: Vec<char> = join(elements, ", ");
        let mut line: Vec<char> = chars_of("add element inet ");
        push_str(&mut line, TABLE);
        push_str(&mut line, " ");
        push_str(&mut line, set);
        push_str(&mut line, " { ");
        push_all(&mut line, list.as_slice());
        push_str(&mut line, " }");
        push_line(lines, line);
    }
}

/// Adds the timeout to an address text.
fn with_timeout(addr: Vec<char>, timeout_secs: u64) -> (out: Vec<char>)
    ensures
        out@ == addr@ + " timeout "@ + decimal(timeout_secs as nat) + "s"@,
{
    let mut out: Vec<char> = addr;
    push_str(&mut out, " timeout ");
    push_all(&mut out, to_numeral(timeout_secs, 10).as_slice());
    push_str(&mut out, "s");
    out
}

/// Render the script that adds resolved addresses to the dynamic allow-sets with the given
/// timeout. There is none if there are no addresses.
pub fn build_injection(v4: &[Ipv4Addr], v6: &[Ipv6Addr], timeout_secs: u64) -> (s: Option<String>)
    ensures
        match s {
            Some(s) => (v4@.len() > 0 || v6@.len() > 0) && s@ == lined(
                injection_lines(v4@, v6@, timeout_secs),
            ),
            None => v4@.len() == 0 && v6@.len() == 0,
        },
{
    if v4.len() == 0 && v6.len() == 0 {
        return None;
    }
    let mut lines: Vec<Vec<char>> = Vec::new();
    let mut elements: Vec<Vec<char>> = Vec::new();
    let mut i: usize = 0;
    while i < v4.len()
        invariant
            i <= v4@.len(),
            elements@.len() == i,
            forall|j: int|
                0 <= j < i ==> (#[trigger] elements@[j])@ == timed(v4_texts(v4@), timeout_secs)[j],
        decreases v4@.len() - i,
    {
        elements.push(with_timeout(format_v4(&v4[i]), timeout_secs));
        i = i + 1;
    }
    assert(rows(elements@) == timed(v4_texts(v4@), timeout_secs));
    push_add(&mut lines, SET_ALLOWED_V4, &elements);
    let mut elements: Vec<Vec<char>> = Vec::new();
    let mut i: usize = 0;
    while i < v6.len()
        invariant
            i <= v6@.len(),
            elements@.len() == i,
            forall|j: int|
                0 <= j < i ==> (#[trigger] elements@[j])@ == timed(v6_texts(v6@), timeout_secs)[j],
        decreases v6@.len() - i,
    {
        elements.push(with_timeout(format_v6(&v6[i]), timeout_secs));
        i = i + 1;
    }
    assert(rows(elements@) == timed(v6_texts(v6@), timeout_secs));
    push_add(&mut lines, SET_ALLOWED_V6, &elements);
    assert(rows(lines@) == injection_lines(v4@, v6@, timeout_secs));
    Some(write_lines(&lines))
}

/// A run of a program: its arguments, and what it reads from standard input.
#[derive(Debug)]
pub struct Invocation {
    pub program: String,
    pub args: Vec<String>,
    pub stdin: Option<String>,
}

/// A run of a program.
#[verifier::ext_equal]
pub struct Run {
    pub program: Seq<char>,
    pub args: Seq<Seq<char>>,
    pub stdin: Option<Seq<char>>,
}

impl View for Invocation {
    type V = Run;

    open spec fn view(&self) -> Run {
        Run { program: self.program@, args: texts(self.args@), stdin: opt_text(self.stdin) }
    }
}

/// The run that feeds `text` to `nft -f -`.
pub open spec fn script_run(nft: Seq<char>, text: Seq<char>) -> Run {
    Run { program: nft, args: seq!["-f"@, "-"@], stdin: Some(text) }
}

/// The run that lists the tables.
pub open spec fn tables_run(nft: Seq<char>) -> Run {
    Run { program: nft, args: seq!["list"@, "tables"@], stdin: None }
}

/// The run that lists our table.
pub open spec fn table_run(nft: Seq<char>) -> Run {
    Run { program: nft, args: seq!["list"@, "table"@, "inet"@, TABLE@], stdin: None }
}

/// The run that lists the chain that intercepts DNS.
pub open spec fn chain_run(nft: Seq<char>) -> Run {
    Run {
        program: nft,
        args: seq!["list"@, "chain"@, "inet"@, TABLE@, "nat_output"@],
        stdin: None,
    }
}

/// What came of a run.
#[derive(Debug)]
pub enum RunOutcome {
    /// The program could not be started.
    NotStarted,
    /// The program did not take its standard input.
    NotWritten,
    /// The program could not be waited for.
    NotWaited,
    /// The program has ended.
    Exited { succeeded: bool, status: String, stderr: String },
}

/// What came of a run.
pub enum Ending {
    NotStarted,
    NotWritten,
    NotWaited,
    Exited { succeeded: bool, status: Seq<char>, stderr: Seq<char> },
}

impl View for RunOutcome {
    type V = Ending;

    open spec fn view(&self) -> Ending {
        match self {
            RunOutcome::NotStarted => Ending::NotStarted,
            RunOutcome::NotWritten => Ending::NotWritten,
            RunOutcome::NotWaited => Ending::NotWaited,
            RunOutcome::Exited { succeeded, status, stderr } => Ending::Exited {
                succeeded: *succeeded,
                status: status@,
                stderr: stderr@,
            },
        }
    }
}

/// The program was run to its end and succeeded.
pub open spec fn run_succeeded(ending: Ending) -> bool {
    ending matches Ending::Exited { succeeded, .. } && succeeded
}

/// What a run reads from standard input.
pub open spec fn input_of(run: Run) -> Seq<char> {
    match run.stdin {
        Some(s) => s,
        None => Seq::empty(),
    }
}

/// What is reported of an nft script that was not applied.
pub open spec fn script_error(run: Run, ending: Ending) -> Seq<char> {
    match ending {
        Ending::NotStarted => "spawning `"@ + run.program + " -f -`"@,
        Ending::NotWritten => "writing nft script to stdin"@,
        Ending::NotWaited => "waiting for nft"@,
        Ending::Exited { succeeded, status, stderr } => "nft script failed ("@ + status + "): "@
            + trimmed(stderr) + "\n--- script ---\n"@ + input_of(run),
    }
}

/// What is reported of an `nft` that cannot be used.
pub open spec fn availability_error(run: Run, ending: Ending) -> Seq<char> {
    match ending {
        Ending::Exited { succeeded, status, stderr } => "`nft list tables` failed ("@ + status
            + "). The host kernel likely does not expose nf_tables (modules cannot be loaded from inside the container). stderr: "@
            + trimmed(stderr),
        _ => "failed to run `"@ + run.program + "` — is the nftables package installed?"@,
    }
}

/// Tell what came of feeding an nft script to `nft -f -`: it is applied exactly if the program
/// was run to its end and succeeded.
pub fn script_result(run: &Invocation, outcome: &RunOutcome) -> (r: Result<(), String>)
    ensures
        match r {
            Ok(()) => run_succeeded(outcome@),
            Err(message) => !run_succeeded(outcome@) && message@ == script_error(run@, outcome@),
        },
{
    let mut out: Vec<char> = Vec::new();
    match outcome {
        RunOutcome::NotStarted => {
            push_str(&mut out, "spawning `");
            push_str(&mut out, run.program.as_str());
            push_str(&mut out, " -f -`");
        },
        RunOutcome::NotWritten => {
            push_str(&mut out, "writing nft script to stdin");
        },
        RunOutcome::NotWaited => {
            push_str(&mut out, "waiting for nft");
        },
        RunOutcome::Exited { succeeded, status, stderr } => {
            if *succeeded {
                return Ok(());
            }
            push_str(&mut out, "nft script failed (");
            push_str(&mut out, status.as_str());
            push_str(&mut out, "): ");
            push_all(&mut out, trim(chars_of(stderr.as_str()).as_slice()));
            push_str(&mut out, "\n--- script ---\n");
            match &run.stdin {
                Some(s) => {
                    push_str(&mut out, s.as_str());
                },
                None => {},
            }
        },
    }
    assert(out@ =~= script_error(run@, outcome@));
    Err(string_of(out.as_slice()))
}

/// Tell what came of the run of [`Nft::check_available`]: nftables is usable exactly if the
/// program was run to its end and succeeded. Produces an actionable error rather than a cryptic
/// netlink failure.
pub fn availability_result(run: &Invocation, outcome: &RunOutcome) -> (r: Result<(), String>)
    ensures
        match r {
            Ok(()) => run_succeeded(outcome@),
            Err(message) => !run_succeeded(outcome@) && message@ == availability_error(
                run@,
                outcome@,
            ),
        },
{
    let mut out: Vec<char> = Vec::new();
    match outcome {
        RunOutcome::Exited { succeeded, status, stderr } => {
            if *succeeded {
                return Ok(());
            }
            push_str(&mut out, "`nft list tables` failed (");
            push_str(&mut out, status.as_str());
            push_str(
                &mut out,
                "). The host kernel likely does not expose nf_tables (modules cannot be loaded from inside the container). stderr: ",
            );
            push_all(&mut out, trim(chars_of(stderr.as_str()).as_slice()));
        },
        _ => {
            push_str(&mut out, "failed to run `");
            push_str(&mut out, run.program.as_str());
            push_str(&mut out, "` — is the nftables package installed?");
        },
    }
    assert(out@ =~= availability_error(run@, outcome@));
    Err(string_of(out.as_slice()))
}

/// Whether something exists, by what came of the run that asks.
pub open spec fn existence_of(ending: Ending) -> Option<bool> {
    match ending {
        Ending::Exited { succeeded, status, stderr } => Some(succeeded),
        _ => None,
    }
}

/// Tell what came of a run that asks whether something exists, such as those of
/// [`Nft::table_exists`] and [`Nft::intercept_active`]: it exists exactly if the run succeeded,
/// and nothing is known if the program was not run to its end.
pub fn existence_result(outcome: &RunOutcome) -> (r: Option<bool>)
    ensures
        r == (match outcome@ {
            Ending::Exited { succeeded, status, stderr } => Some(succeeded),
            _ => None,
        }),
        r == existence_of(outcome@),
{
    match outcome {
        RunOutcome::Exited { succeeded, status: _, stderr: _ } => Some(*succeeded),
        _ => None,
    }
}

/// Handle to the `nft` binary. Cheap to clone (holds only the binary path).
#[derive(Clone)]
pub struct Nft {
    bin: String,
}

impl View for Nft {
    type V = Seq<char>;

    closed spec fn view(&self) -> Seq<char> {
        self.bin@
    }
}

impl Default for Nft {
    fn default() -> (r: Self)
        ensures
            r@ == "nft"@,
    {
        Self { bin: "nft".to_owned() }
    }
}

impl Nft {
    /// The run that verifies that `nft` works and that the host kernel exposes the nf_tables
    /// subsystem: it succeeds exactly then.
    pub fn check_available(&self) -> (r: Invocation)
        ensures
            r@ == (Run { program: self@, args: seq!["list"@, "tables"@], stdin: None }),
            r@ == tables_run(self@),
    {
        let mut args: Vec<String> = Vec::new();
        push_string(&mut args, "list");
        push_string(&mut args, "tables");
        Invocation { program: self.bin.clone(), args, stdin: None }
    }

    /// The run that succeeds exactly if our table currently exists.
    pub fn table_exists(&self) -> (r: Invocation)
        ensures
            r@ == (Run {
                program: self@,
                args: seq!["list"@, "table"@, "inet"@, TABLE@],
                stdin: None,
            }),
            r@ == table_run(self@),
    {
        let mut args: Vec<String> = Vec::new();
        push_string(&mut args, "list");
        push_string(&mut args, "table");
        push_string(&mut args, "inet");
        push_string(&mut args, TABLE);
        Invocation { program: self.bin.clone(), args, stdin: None }
    }

    /// The run that succeeds exactly if the chain that intercepts DNS is in the kernel.
    pub fn intercept_active(&self) -> (r: Invocation)
        ensures
            r@ == (Run {
                program: self@,
                args: seq!["list"@, "chain"@, "inet"@, TABLE@, "nat_output"@],
                stdin: None,
            }),
            r@ == chain_run(self@),
    {
        let mut args: Vec<String> = Vec::new();
        push_string(&mut args, "list");
        push_string(&mut args, "chain");
        push_string(&mut args, "inet");
        push_string(&mut args, TABLE);
        push_string(&mut args, "nat_output");
        Invocation { program: self.bin.clone(), args, stdin: None }
    }

    /// Feed an nft script to `nft -f -`. What came of it is told by [`script_result`].
    fn run_script(&self, text: String) -> (r: Invocation)
        ensures
            r@ == script_run(self@, text@),
    {
        let mut args: Vec<String> = Vec::new();
        push_string(&mut args, "-f");
        push_string(&mut args, "-");
        Invocation { program: self.bin.clone(), args, stdin: Some(text) }
    }

    /// Build and atomically (re)apply the entire ruleset.
    pub fn apply_ruleset(&self, p: &RulesetParams) -> (r: Invocation)
        ensures
            r@ == script_run(self@, lined(ruleset_lines(p@))),
    {
        self.run_script(build_ruleset(p))
    }

    /// Inject resolved addresses into the dynamic allow-sets with the given timeout.
    /// Re-adding an existing element refreshes its timeout, which is how IP rotation
    /// self-heals. Both families are added in one transaction. There is nothing to run if
    /// there are no addresses.
    pub fn add_addrs(&self, v4: &[Ipv4Addr], v6: &[Ipv6Addr], timeout_secs: u64) -> (r: Option<
        Invocation,
    >)
        ensures
            match r {
                Some(run) => (v4@.len() > 0 || v6@.len() > 0) && run@ == script_run(
                    self@,
                    lined(injection_lines(v4@, v6@, timeout_secs)),
                ),
                None => v4@.len() == 0 && v6@.len() == 0,
            },
    {
        match build_injection(v4, v6, timeout_secs) {
            Some(text) => Some(self.run_script(text)),
            None => None,
        }
    }
}

} // verus!
