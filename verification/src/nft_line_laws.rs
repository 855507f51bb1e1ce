//! What the lines of every nft script say, in the words of nft.

use vstd::prelude::*;

use crate::addr::{v4_text, v6_text, IpAddr, Ipv4Addr, Ipv6Addr};
use crate::net::{Ipv4Net, Ipv6Net};
use crate::nft::{
    host_rules, injection_lines, input_lines, is_loopback, nat_lines, output_lines,
    ruleset_lines, set_lines, table_lines, timed, upstream_rule, upstream_rules, v4_net_texts,
    v4_texts, v6_net_texts, v6_texts, Rules, SET_ALLOWED_V4, SET_ALLOWED_V6, SET_STATIC_V4,
    SET_STATIC_V6, TABLE,
};
use crate::nft_text_laws::occurs;
use crate::text::{decimal, joined, lined};

verus! {

/// What occurs in a part occurs in the whole.
pub proof fn occurs_in_part(front: Seq<char>, part: Seq<char>, back: Seq<char>, word: Seq<char>)
    requires
        occurs(part, word),
    ensures
        occurs(front + part + back, word),
{
    let n = word.len();
    let i = choose|i: int|
        0 <= i && i + n <= part.len() && #[trigger] part.subrange(i, i + n) == word;
    let s = front + part + back;
    let k = front.len() + i;
    assert(s.subrange(k, k + n) =~= part.subrange(i, i + n));
}

/// Every text occurs in itself.
pub proof fn occurs_in_itself(s: Seq<char>)
    ensures
        occurs(s, s),
{
    assert(s.subrange(0, 0int + s.len()) =~= s);
}

/// Each of the joined texts occurs in the join.
pub proof fn occurs_in_join(p: Seq<Seq<char>>, sep: Seq<char>, i: int)
    requires
        0 <= i < p.len(),
    ensures
        occurs(joined(p, sep), p[i]),
    decreases p.len(),
{
    let none = Seq::<char>::empty();
    occurs_in_itself(p[i]);
    if p.len() > 1 {
        let front = p.drop_last();
        if i < front.len() {
            occurs_in_join(front, sep, i);
            assert(front[i] == p[i]);
            occurs_in_part(none, joined(front, sep), sep + p.last(), p[i]);
            assert(none + joined(front, sep) + (sep + p.last()) =~= joined(p, sep));
        } else {
            occurs_in_part(joined(front, sep) + sep, p[i], none, p[i]);
            assert(joined(front, sep) + sep + p[i] + none =~= joined(p, sep));
        }
    }
}

/// What occurs in a line occurs in the script.
pub proof fn occurs_in_script(lines: Seq<Seq<char>>, i: int, word: Seq<char>)
    requires
        0 <= i < lines.len(),
        occurs(lines[i], word),
    ensures
        occurs(lined(lines), word),
    decreases lines.len(),
{
    let none = Seq::<char>::empty();
    let front = lines.drop_last();
    let last = lines.last().push('\n');
    if i < front.len() {
        assert(front[i] == lines[i]);
        occurs_in_script(front, i, word);
        occurs_in_part(none, lined(front), last, word);
        assert(none + lined(front) + last =~= lined(lines));
    } else {
        occurs_in_part(lined(front), lines[i], seq!['\n'], word);
        assert(lined(front) + lines[i] + seq!['\n'] =~= lined(lines));
    }
}

/// An injection has one line for each family that has addresses, and that line lists every
/// address of the family, in order, each with the timeout in seconds, and nothing else.
pub proof fn injection_lists_every_address(
    v4: Seq<Ipv4Addr>,
    v6: Seq<Ipv6Addr>,
    timeout_secs: u64,
    e4: Seq<Seq<char>>,
    e6: Seq<Seq<char>>,
)
    requires
        e4.len() == v4.len(),
        forall|i: int|
            0 <= i < v4.len() ==> #[trigger] e4[i] == v4_text(v4[i]) + " timeout "@ + decimal(
                timeout_secs as nat,
            ) + "s"@,
        e6.len() == v6.len(),
        forall|i: int|
            0 <= i < v6.len() ==> #[trigger] e6[i] == v6_text(v6[i]) + " timeout "@ + decimal(
                timeout_secs as nat,
            ) + "s"@,
    ensures
        ({
            let line4 = "add element inet castellan allowed_v4 { "@ + joined(e4, ", "@) + " }"@;
            let line6 = "add element inet castellan allowed_v6 { "@ + joined(e6, ", "@) + " }"@;
            let lines = injection_lines(v4, v6, timeout_secs);
            &&& v4.len() == 0 && v6.len() == 0 ==> lines.len() == 0
            &&& v4.len() > 0 && v6.len() == 0 ==> lines == seq![line4]
            &&& v4.len() == 0 && v6.len() > 0 ==> lines == seq![line6]
            &&& v4.len() > 0 && v6.len() > 0 ==> lines == seq![line4, line6]
        }),
{
    assert(timed(v4_texts(v4), timeout_secs) =~= e4);
    assert(timed(v6_texts(v6), timeout_secs) =~= e6);
    reveal_strlit("add element inet castellan allowed_v4 { ");
    reveal_strlit("add element inet castellan allowed_v6 { ");
    reveal_strlit("add element inet ");
    reveal_strlit("castellan");
    reveal_strlit(" ");
    reveal_strlit("allowed_v4");
    reveal_strlit("allowed_v6");
    reveal_strlit(" { ");
    assert("add element inet castellan allowed_v4 { "@ =~= "add element inet "@ + TABLE@ + " "@
        + SET_ALLOWED_V4@ + " { "@);
    assert("add element inet castellan allowed_v6 { "@ =~= "add element inet "@ + TABLE@ + " "@
        + SET_ALLOWED_V6@ + " { "@);
}

/// Every IPv4 address of an injection stands in its script, with its timeout.
pub proof fn injection_names_v4_address(
    v4: Seq<Ipv4Addr>,
    v6: Seq<Ipv6Addr>,
    timeout_secs: u64,
    i: int,
)
    requires
        0 <= i < v4.len(),
    ensures
        occurs(
            lined(injection_lines(v4, v6, timeout_secs)),
            v4_text(v4[i]) + " timeout "@ + decimal(timeout_secs as nat) + "s"@,
        ),
{
    let t = " timeout "@ + decimal(timeout_secs as nat) + "s"@;
    let e4 = Seq::new(
        v4.len(),
        |j: int| v4_text(v4[j]) + " timeout "@ + decimal(timeout_secs as nat) + "s"@,
    );
    let e6 = Seq::new(
        v6.len(),
        |j: int| v6_text(v6[j]) + " timeout "@ + decimal(timeout_secs as nat) + "s"@,
    );
    injection_lists_every_address(v4, v6, timeout_secs, e4, e6);
    occurs_in_join(e4, ", "@, i);
    occurs_in_part(
        "add element inet castellan allowed_v4 { "@,
        joined(e4, ", "@),
        " }"@,
        e4[i],
    );
    occurs_in_script(injection_lines(v4, v6, timeout_secs), 0, e4[i]);
}

/// Every IPv6 address of an injection stands in its script, with its timeout.
pub proof fn injection_names_v6_address(
    v4: Seq<Ipv4Addr>,
    v6: Seq<Ipv6Addr>,
    timeout_secs: u64,
    i: int,
)
    requires
        0 <= i < v6.len(),
    ensures
        occurs(
            lined(injection_lines(v4, v6, timeout_secs)),
            v6_text(v6[i]) + " timeout "@ + decimal(timeout_secs as nat) + "s"@,
        ),
{
    let e4 = Seq::new(
        v4.len(),
        |j: int| v4_text(v4[j]) + " timeout "@ + decimal(timeout_secs as nat) + "s"@,
    );
    let e6 = Seq::new(
        v6.len(),
        |j: int| v6_text(v6[j]) + " timeout "@ + decimal(timeout_secs as nat) + "s"@,
    );
    injection_lists_every_address(v4, v6, timeout_secs, e4, e6);
    occurs_in_join(e6, ", "@, i);
    occurs_in_part(
        "add element inet castellan allowed_v6 { "@,
        joined(e6, ", "@),
        " }"@,
        e6[i],
    );
    let lines = injection_lines(v4, v6, timeout_secs);
    occurs_in_script(lines, lines.len() - 1, e6[i]);
}

/// The table is created, deleted and created anew, so that the script replaces it whole.
pub proof fn table_is_replaced()
    ensures
        table_lines() == seq![
            "table inet castellan {}"@,
            "delete table inet castellan"@,
            "table inet castellan {"@,
        ],
{
    reveal_strlit("table inet castellan {}");
    reveal_strlit("delete table inet castellan");
    reveal_strlit("table inet castellan {");
    reveal_strlit("table inet ");
    reveal_strlit("delete table inet ");
    reveal_strlit("castellan");
    reveal_strlit(" {}");
    reveal_strlit(" {");
    assert("table inet castellan {}"@ =~= "table inet "@ + TABLE@ + " {}"@);
    assert("delete table inet castellan"@ =~= "delete table inet "@ + TABLE@);
    assert("table inet castellan {"@ =~= "table inet "@ + TABLE@ + " {"@);
}

/// The sets of resolved addresses start empty and their elements expire; the static sets list
/// every seeded range, in order, and nothing else.
pub proof fn sets_list_every_seeded_range(
    static_v4: Seq<Ipv4Net>,
    static_v6: Seq<Ipv6Net>,
    e4: Seq<Seq<char>>,
    e6: Seq<Seq<char>>,
)
    requires
        e4.len() == static_v4.len(),
        forall|i: int|
            0 <= i < e4.len() ==> #[trigger] e4[i] == v4_text(static_v4[i].addr) + "/"@ + decimal(
                static_v4[i].prefix_len as nat,
            ),
        e6.len() == static_v6.len(),
        forall|i: int|
            0 <= i < e6.len() ==> #[trigger] e6[i] == v6_text(static_v6[i].addr) + "/"@ + decimal(
                static_v6[i].prefix_len as nat,
            ),
    ensures
        ({
            let lines = set_lines(static_v4, static_v6);
            &&& lines.len() == 4
            &&& lines[0] == "  set allowed_v4 { type ipv4_addr; flags timeout; }"@
            &&& lines[1] == "  set allowed_v6 { type ipv6_addr; flags timeout; }"@
            &&& e4.len() == 0 ==> lines[2] == "  set static_v4 { type ipv4_addr; flags interval; }"@
            &&& e4.len() > 0 ==> lines[2]
                == "  set static_v4 { type ipv4_addr; flags interval; elements = { "@ + joined(
                e4,
                ", "@,
            ) + " }; }"@
            &&& e6.len() == 0 ==> lines[3] == "  set static_v6 { type ipv6_addr; flags interval; }"@
            &&& e6.len() > 0 ==> lines[3]
                == "  set static_v6 { type ipv6_addr; flags interval; elements = { "@ + joined(
                e6,
                ", "@,
            ) + " }; }"@
        }),
{
    reveal_strlit("/");
    let t4 = v4_net_texts(static_v4);
    assert forall|i: int| 0 <= i < e4.len() implies #[trigger] e4[i] == t4[i] by {
        assert(e4[i] =~= t4[i]);
    }
    assert(t4 =~= e4);
    let t6 = v6_net_texts(static_v6);
    assert forall|i: int| 0 <= i < e6.len() implies #[trigger] e6[i] == t6[i] by {
        assert(e6[i] =~= t6[i]);
    }
    assert(t6 =~= e6);
    dynamic_set_words();
    static_set_words();
    reveal_strlit(" }; }");
    reveal_strlit(" };");
    reveal_strlit(" }");
    assert(" }; }"@ =~= " };"@ + " }"@);
    let lines = set_lines(static_v4, static_v6);
    if e4.len() > 0 {
        let h = "  set static_v4 { type ipv4_addr; flags interval; elements = { "@;
        assert(lines[2] == h + joined(e4, ", "@) + " };"@ + " }"@);
        assert(lines[2] =~= h + joined(e4, ", "@) + " }; }"@);
    }
    if e6.len() > 0 {
        let h = "  set static_v6 { type ipv6_addr; flags interval; elements = { "@;
        assert(lines[3] == h + joined(e6, ", "@) + " };"@ + " }"@);
        assert(lines[3] =~= h + joined(e6, ", "@) + " }; }"@);
    }
}

/// The words of the sets of resolved addresses.
proof fn dynamic_set_words()
    ensures
        "  set allowed_v4 { type ipv4_addr; flags timeout; }"@ == "  set "@ + SET_ALLOWED_V4@
            + " { type "@ + "ipv4_addr"@ + "; flags timeout; }"@,
        "  set allowed_v6 { type ipv6_addr; flags timeout; }"@ == "  set "@ + SET_ALLOWED_V6@
            + " { type "@ + "ipv6_addr"@ + "; flags timeout; }"@,
{
    reveal_strlit("  set allowed_v4 { type ipv4_addr; flags timeout; }");
    reveal_strlit("  set allowed_v6 { type ipv6_addr; flags timeout; }");
    reveal_strlit("  set ");
    reveal_strlit("allowed_v4");
    reveal_strlit("allowed_v6");
    reveal_strlit(" { type ");
    reveal_strlit("ipv4_addr");
    reveal_strlit("ipv6_addr");
    reveal_strlit("; flags timeout; }");
    assert("  set allowed_v4 { type ipv4_addr; flags timeout; }"@ =~= "  set "@ + SET_ALLOWED_V4@
        + " { type "@ + "ipv4_addr"@ + "; flags timeout; }"@);
    assert("  set allowed_v6 { type ipv6_addr; flags timeout; }"@ =~= "  set "@ + SET_ALLOWED_V6@
        + " { type "@ + "ipv6_addr"@ + "; flags timeout; }"@);
}

/// The words of the static sets.
proof fn static_set_words()
    ensures
        "  set static_v4 { type ipv4_addr; flags interval; elements = { "@ == "  set "@
            + SET_STATIC_V4@ + " { type "@ + "ipv4_addr"@ + "; flags interval;"@
            + " elements = { "@,
        "  set static_v6 { type ipv6_addr; flags interval; elements = { "@ == "  set "@
            + SET_STATIC_V6@ + " { type "@ + "ipv6_addr"@ + "; flags interval;"@
            + " elements = { "@,
        "  set static_v4 { type ipv4_addr; flags interval; }"@ == "  set "@ + SET_STATIC_V4@
            + " { type "@ + "ipv4_addr"@ + "; flags interval;"@ + " }"@,
        "  set static_v6 { type ipv6_addr; flags interval; }"@ == "  set "@ + SET_STATIC_V6@
            + " { type "@ + "ipv6_addr"@ + "; flags interval;"@ + " }"@,
{
    reveal_strlit("  set static_v4 { type ipv4_addr; flags interval; elements = { ");
    reveal_strlit("  set static_v6 { type ipv6_addr; flags interval; elements = { ");
    reveal_strlit("  set static_v4 { type ipv4_addr; flags interval; }");
    reveal_strlit("  set static_v6 { type ipv6_addr; flags interval; }");
    reveal_strlit("  set ");
    reveal_strlit("static_v4");
    reveal_strlit("static_v6");
    reveal_strlit(" { type ");
    reveal_strlit("ipv4_addr");
    reveal_strlit("ipv6_addr");
    reveal_strlit("; flags interval;");
    reveal_strlit(" elements = { ");
    reveal_strlit(" }");
    assert("  set static_v4 { type ipv4_addr; flags interval; elements = { "@ =~= "  set "@
        + SET_STATIC_V4@ + " { type "@ + "ipv4_addr"@ + "; flags interval;"@ + " elements = { "@);
    assert("  set static_v6 { type ipv6_addr; flags interval; elements = { "@ =~= "  set "@
        + SET_STATIC_V6@ + " { type "@ + "ipv6_addr"@ + "; flags interval;"@ + " elements = { "@);
    assert("  set static_v4 { type ipv4_addr; flags interval; }"@ =~= "  set "@ + SET_STATIC_V4@
        + " { type "@ + "ipv4_addr"@ + "; flags interval;"@ + " }"@);
    assert("  set static_v6 { type ipv6_addr; flags interval; }"@ =~= "  set "@ + SET_STATIC_V6@
        + " { type "@ + "ipv6_addr"@ + "; flags interval;"@ + " }"@);
}

/// The loopback addresses are `127.0.0.0/8` and `::1`.
pub proof fn loopback_addresses(a: Ipv4Addr, b: Ipv6Addr)
    ensures
        is_loopback(IpAddr::V4(a)) <==> a.octets[0] == 127,
        is_loopback(IpAddr::V6(b)) <==> b.segments == [0u16, 0, 0, 0, 0, 0, 0, 1],
{
    let one = [0u16, 0, 0, 0, 0, 0, 0, 1];
    if is_loopback(IpAddr::V6(b)) {
        assert forall|i: int| 0 <= i < 8 implies b.segments@[i] == one@[i] by {
            if i < 7 {
                assert(b.segments[i] == 0);
            }
        }
        assert(b.segments =~= one);
    }
}

/// The rules for the host networks: one for each, in order, of the family that the network is
/// written in.
pub proof fn host_rules_line_by_line(nets: Seq<Seq<char>>, i: int)
    requires
        0 <= i < nets.len(),
    ensures
        host_rules("saddr"@, nets).len() == nets.len(),
        host_rules("daddr"@, nets).len() == nets.len(),
        nets[i].contains(':') ==> {
            &&& host_rules("saddr"@, nets)[i] == "    ip6 saddr "@ + nets[i] + " accept"@
            &&& host_rules("daddr"@, nets)[i] == "    ip6 daddr "@ + nets[i] + " accept"@
        },
        !nets[i].contains(':') ==> {
            &&& host_rules("saddr"@, nets)[i] == "    ip saddr "@ + nets[i] + " accept"@
            &&& host_rules("daddr"@, nets)[i] == "    ip daddr "@ + nets[i] + " accept"@
        },
{
    reveal_strlit("    ip6 saddr ");
    reveal_strlit("    ip6 daddr ");
    reveal_strlit("    ip saddr ");
    reveal_strlit("    ip daddr ");
    reveal_strlit("    ip6 ");
    reveal_strlit("    ip ");
    reveal_strlit("saddr");
    reveal_strlit("daddr");
    reveal_strlit(" ");
    assert("    ip6 saddr "@ =~= "    ip6 "@ + "saddr"@ + " "@);
    assert("    ip6 daddr "@ =~= "    ip6 "@ + "daddr"@ + " "@);
    assert("    ip saddr "@ =~= "    ip "@ + "saddr"@ + " "@);
    assert("    ip daddr "@ =~= "    ip "@ + "daddr"@ + " "@);
}

/// The upstreams that are not loopback addresses, in order.
pub open spec fn remote(upstreams: Seq<IpAddr>) -> Seq<IpAddr> {
    upstreams.filter(|a: IpAddr| !is_loopback(a))
}

/// The rules for the upstreams: two for each that is not a loopback address, in order, one for
/// DNS over UDP and one for DNS over TCP.
pub proof fn upstream_rules_line_by_line(upstreams: Seq<IpAddr>, i: int)
    requires
        0 <= i < remote(upstreams).len(),
    ensures
        upstream_rules(upstreams).len() == 2 * remote(upstreams).len(),
        remote(upstreams)[i] matches IpAddr::V4(a) ==> {
            &&& upstream_rules(upstreams)[2 * i] == "    ip daddr "@ + v4_text(a)
                + " udp dport 53 accept"@
            &&& upstream_rules(upstreams)[2 * i + 1] == "    ip daddr "@ + v4_text(a)
                + " tcp dport 53 accept"@
        },
        remote(upstreams)[i] matches IpAddr::V6(a) ==> {
            &&& upstream_rules(upstreams)[2 * i] == "    ip6 daddr "@ + v6_text(a)
                + " udp dport 53 accept"@
            &&& upstream_rules(upstreams)[2 * i + 1] == "    ip6 daddr "@ + v6_text(a)
                + " tcp dport 53 accept"@
        },
{
    upstream_rules_by_pairs(upstreams);
    let a = remote(upstreams)[i];
    assert(upstream_rules(upstreams)[2 * i] == upstream_rule(a, "udp"@));
    reveal_strlit(" udp dport 53 accept");
    reveal_strlit(" tcp dport 53 accept");
    reveal_strlit(" dport 53 accept");
    reveal_strlit("udp");
    reveal_strlit("tcp");
    reveal_strlit(" ");
    assert(" udp dport 53 accept"@ =~= " "@ + "udp"@ + " dport 53 accept"@);
    assert(" tcp dport 53 accept"@ =~= " "@ + "tcp"@ + " dport 53 accept"@);
    match a {
        IpAddr::V4(b) => {
            let h = "    ip daddr "@ + v4_text(b);
            assert(upstream_rule(a, "udp"@) =~= h + " udp dport 53 accept"@);
            assert(upstream_rule(a, "tcp"@) =~= h + " tcp dport 53 accept"@);
        },
        IpAddr::V6(b) => {
            let h = "    ip6 daddr "@ + v6_text(b);
            assert(upstream_rule(a, "udp"@) =~= h + " udp dport 53 accept"@);
            assert(upstream_rule(a, "tcp"@) =~= h + " tcp dport 53 accept"@);
        },
    }
}

/// The rules for the upstreams come in pairs.
proof fn upstream_rules_by_pairs(upstreams: Seq<IpAddr>)
    ensures
        upstream_rules(upstreams).len() == 2 * remote(upstreams).len(),
        forall|i: int|
            #![trigger remote(upstreams)[i]]
            0 <= i < remote(upstreams).len() ==> {
                &&& upstream_rules(upstreams)[2 * i] == upstream_rule(
                    remote(upstreams)[i],
                    "udp"@,
                )
                &&& upstream_rules(upstreams)[2 * i + 1] == upstream_rule(
                    remote(upstreams)[i],
                    "tcp"@,
                )
            },
    decreases upstreams.len(),
{
    reveal(Seq::filter);
    if upstreams.len() > 0 {
        let front = upstreams.drop_last();
        upstream_rules_by_pairs(front);
        let r = remote(upstreams);
        assert forall|i: int|
            #![trigger remote(upstreams)[i]]
            0 <= i < r.len() implies {
            &&& upstream_rules(upstreams)[2 * i] == upstream_rule(r[i], "udp"@)
            &&& upstream_rules(upstreams)[2 * i + 1] == upstream_rule(r[i], "tcp"@)
        } by {
            if i < remote(front).len() {
                assert(r[i] == remote(front)[i]);
            }
        }
    }
}

/// The filter chains, between their rules: they drop by default, accept established connections
/// and the loopback interface, and let out to the members of the four sets.
pub proof fn chains_line_by_line(upstreams: Seq<IpAddr>, nets: Seq<Seq<char>>)
    ensures
        input_lines(nets) == seq![
            "  chain input {"@,
            "    type filter hook input priority 0; policy drop;"@,
            "    ct state established,related accept"@,
            "    iif \"lo\" accept"@,
        ] + host_rules("saddr"@, nets) + seq!["  }"@],
        output_lines(upstreams, nets) == seq![
            "  chain output {"@,
            "    type filter hook output priority 0; policy drop;"@,
            "    ct state established,related accept"@,
            "    oif \"lo\" accept"@,
        ] + upstream_rules(upstreams) + host_rules("daddr"@, nets) + seq![
            "    ip daddr @static_v4 accept"@,
            "    ip6 daddr @static_v6 accept"@,
            "    ip daddr @allowed_v4 accept"@,
            "    ip6 daddr @allowed_v6 accept"@,
            "  }"@,
        ],
{
    reveal_strlit("    ip daddr @static_v4 accept");
    reveal_strlit("    ip6 daddr @static_v6 accept");
    reveal_strlit("    ip daddr @allowed_v4 accept");
    reveal_strlit("    ip6 daddr @allowed_v6 accept");
    reveal_strlit("    ");
    reveal_strlit("ip");
    reveal_strlit("ip6");
    reveal_strlit(" daddr @");
    reveal_strlit("static_v4");
    reveal_strlit("static_v6");
    reveal_strlit("allowed_v4");
    reveal_strlit("allowed_v6");
    reveal_strlit(" accept");
    assert("    ip daddr @static_v4 accept"@ =~= "    "@ + "ip"@ + " daddr @"@ + SET_STATIC_V4@
        + " accept"@);
    assert("    ip6 daddr @static_v6 accept"@ =~= "    "@ + "ip6"@ + " daddr @"@ + SET_STATIC_V6@
        + " accept"@);
    assert("    ip daddr @allowed_v4 accept"@ =~= "    "@ + "ip"@ + " daddr @"@ + SET_ALLOWED_V4@
        + " accept"@);
    assert("    ip6 daddr @allowed_v6 accept"@ =~= "    "@ + "ip6"@ + " daddr @"@ + SET_ALLOWED_V6@
        + " accept"@);
}

/// The redirection goes to the port that the resolver listens on, for all DNS but that of root
/// and that to the loopback addresses.
pub proof fn redirection_goes_to_the_resolver(port: u16)
    ensures
        nat_lines(port).len() == 7,
        nat_lines(port)[0] == "  chain nat_output {"@,
        nat_lines(port)[1] == "    type nat hook output priority -100; policy accept;"@,
        nat_lines(port)[2] == "    meta skuid 0 return"@,
        nat_lines(port)[3] == "    ip daddr 127.0.0.0/8 return"@,
        nat_lines(port)[4] == "    ip6 daddr ::1 return"@,
        nat_lines(port)[5] == "    meta l4proto { tcp, udp } th dport 53 redirect to :"@ + decimal(
            port as nat,
        ),
        nat_lines(port)[6] == "  }"@,
{
}

/// A ruleset is the table, its sets, its two filter chains and, if asked for, the chain that
/// intercepts DNS, in this order.
pub proof fn ruleset_part_by_part(p: Rules)
    ensures
        p.intercept ==> ruleset_lines(p) == table_lines() + set_lines(p.static_v4, p.static_v6)
            + input_lines(p.host_networks) + output_lines(p.upstreams, p.host_networks) + nat_lines(
            p.resolver_port,
        ) + seq!["}"@],
        !p.intercept ==> ruleset_lines(p) == table_lines() + set_lines(p.static_v4, p.static_v6)
            + input_lines(p.host_networks) + output_lines(p.upstreams, p.host_networks) + seq![
            "}"@,
        ],
{
    assert(!p.intercept ==> ruleset_lines(p) =~= table_lines() + set_lines(
        p.static_v4,
        p.static_v6,
    ) + input_lines(p.host_networks) + output_lines(p.upstreams, p.host_networks) + seq!["}"@]);
}

/// Every seeded range stands in the text of the ruleset.
pub proof fn every_seeded_range_is_written(p: Rules, i: int)
    ensures
        0 <= i < p.static_v4.len() ==> occurs(
            lined(ruleset_lines(p)),
            v4_text(p.static_v4[i].addr) + "/"@ + decimal(p.static_v4[i].prefix_len as nat),
        ),
        0 <= i < p.static_v6.len() ==> occurs(
            lined(ruleset_lines(p)),
            v6_text(p.static_v6[i].addr) + "/"@ + decimal(p.static_v6[i].prefix_len as nat),
        ),
{
    let e4 = Seq::new(
        p.static_v4.len(),
        |j: int|
            v4_text(p.static_v4[j].addr) + "/"@ + decimal(p.static_v4[j].prefix_len as nat),
    );
    let e6 = Seq::new(
        p.static_v6.len(),
        |j: int|
            v6_text(p.static_v6[j].addr) + "/"@ + decimal(p.static_v6[j].prefix_len as nat),
    );
    sets_list_every_seeded_range(p.static_v4, p.static_v6, e4, e6);
    ruleset_part_by_part(p);
    let s = set_lines(p.static_v4, p.static_v6);
    assert(ruleset_lines(p)[5] == s[2]);
    assert(ruleset_lines(p)[6] == s[3]);
    if 0 <= i < e4.len() {
        occurs_in_join(e4, ", "@, i);
        occurs_in_part(
            "  set static_v4 { type ipv4_addr; flags interval; elements = { "@,
            joined(e4, ", "@),
            " }; }"@,
            e4[i],
        );
        occurs_in_script(ruleset_lines(p), 5, e4[i]);
    }
    if 0 <= i < e6.len() {
        occurs_in_join(e6, ", "@, i);
        occurs_in_part(
            "  set static_v6 { type ipv6_addr; flags interval; elements = { "@,
            joined(e6, ", "@),
            " }; }"@,
            e6[i],
        );
        occurs_in_script(ruleset_lines(p), 6, e6[i]);
    }
}

} // verus!
