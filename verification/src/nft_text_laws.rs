//! What holds of the text of every ruleset.

use vstd::prelude::*;

use crate::addr::{
    address_text_is_plain, digit_value, ip_text, is_plain_address, plain_numeral, IpAddr,
    Ipv4Addr,
};
use crate::net::{Ipv4Net, Ipv6Net};
use crate::nft::{
    dynamic_set, host_rule, input_lines, nat_lines, output_lines, ruleset_lines, set_lines,
    set_rule, static_set, table_lines, upstream_rule, upstream_rules, v4_net_texts,
    v6_net_texts, Rules, SET_ALLOWED_V4, SET_ALLOWED_V6, SET_STATIC_V4, SET_STATIC_V6, TABLE,
};
use crate::setup::{gateway_of, host_networks_of, network_text};
use crate::text::{decimal, joined, lined};

verus! {

/// The lines that every ruleset has, but for the closing brace.
pub open spec fn shared_lines(p: Rules) -> Seq<Seq<char>> {
    table_lines() + set_lines(p.static_v4, p.static_v6) + input_lines(p.host_networks)
        + output_lines(p.upstreams, p.host_networks)
}

/// Lines with their line ends, taken in two parts.
proof fn lined_sum(a: Seq<Seq<char>>, b: Seq<Seq<char>>)
    ensures
        lined(a + b) == lined(a) + lined(b),
    decreases b.len(),
{
    if b.len() == 0 {
        assert(a + b == a);
        assert(lined(a) + lined(b) =~= lined(a));
    } else {
        lined_sum(a, b.drop_last());
        assert((a + b).drop_last() == a + b.drop_last());
        assert(lined(a + b) =~= lined(a) + lined(b));
    }
}

/// The closing brace, with its line end.
proof fn closing_brace()
    ensures
        lined(seq!["}"@]) == "}\n"@,
{
    reveal_strlit("}");
    reveal_strlit("}\n");
    reveal_with_fuel(lined, 2);
    assert(seq!["}"@].drop_last() == Seq::<Seq<char>>::empty());
    assert(lined(seq!["}"@]) =~= "}\n"@);
}

/// Interception adds one block before the closing brace, and changes nothing else; without it
/// the text does not depend on the port.
pub proof fn interception_adds_one_block(without: Rules, with: Rules, port: u16)
    requires
        !without.intercept,
        with.intercept,
        with.upstreams == without.upstreams,
        with.host_networks == without.host_networks,
        with.static_v4 == without.static_v4,
        with.static_v6 == without.static_v6,
    ensures
        lined(ruleset_lines(without)) == lined(shared_lines(without)) + "}\n"@,
        lined(ruleset_lines(with)) == lined(shared_lines(without)) + lined(
            nat_lines(with.resolver_port),
        ) + "}\n"@,
        ruleset_lines(Rules { resolver_port: port, ..without }) == ruleset_lines(without),
{
    let s = shared_lines(without);
    let n = nat_lines(with.resolver_port);
    let e = seq!["}"@];
    closing_brace();
    assert(ruleset_lines(without) =~= s + e);
    assert(ruleset_lines(with) =~= s + n + e);
    lined_sum(s, e);
    lined_sum(s + n, e);
    lined_sum(s, n);
}

/// `word` occurs in `s`.
pub open spec fn occurs(s: Seq<char>, word: Seq<char>) -> bool {
    exists|i: int|
        0 <= i && i + word.len() <= s.len() && #[trigger] s.subrange(i, i + word.len()) == word
}

/// Neither `t_` nor `ir` stands at `i`.
spec fn clean_at(s: Seq<char>, i: int) -> bool {
    !(s[i] == 't' && s[i + 1] == '_') && !(s[i] == 'i' && s[i + 1] == 'r')
}

/// Neither `t_` nor `ir` stands in `s`, and none comes about in front of it.
spec fn clean(s: Seq<char>) -> bool {
    &&& s.len() > 0 ==> s[0] != '_' && s[0] != 'r'
    &&& forall|i: int| 0 <= i < s.len() - 1 ==> #[trigger] clean_at(s, i)
}

/// Clean texts, one after the other, are clean.
proof fn clean_sum(a: Seq<char>, b: Seq<char>)
    requires
        clean(a),
        clean(b),
    ensures
        clean(a + b),
{
    let s = a + b;
    assert forall|i: int| 0 <= i < s.len() - 1 implies #[trigger] clean_at(s, i) by {
        if i < a.len() - 1 {
            assert(clean_at(a, i));
        } else if i >= a.len() {
            assert(clean_at(b, i - a.len()));
        }
    }
    if a.len() == 0 {
        assert(s =~= b);
    }
}

/// A clean text holds neither the name of the chain nor the word for its rule.
proof fn clean_holds_neither(s: Seq<char>)
    requires
        clean(s),
    ensures
        !occurs(s, "nat_output"@),
        !occurs(s, "redirect"@),
{
    reveal_strlit("nat_output");
    reveal_strlit("redirect");
    if occurs(s, "nat_output"@) {
        let i = choose|i: int|
            0 <= i && i + 10 <= s.len() && #[trigger] s.subrange(i, i + 10) == "nat_output"@;
        let w = s.subrange(i, i + 10);
        assert(w[2] == s[i + 2] && w[3] == s[i + 3]);
        assert(clean_at(s, i + 2));
    }
    if occurs(s, "redirect"@) {
        let i = choose|i: int|
            0 <= i && i + 8 <= s.len() && #[trigger] s.subrange(i, i + 8) == "redirect"@;
        let w = s.subrange(i, i + 8);
        assert(w[3] == s[i + 3] && w[4] == s[i + 4]);
        assert(clean_at(s, i + 3));
    }
}

/// The text `s` is clean from `k` on.
spec fn scan(s: Seq<char>, k: int) -> bool
    decreases s.len() - k,
{
    k >= s.len() - 1 || (clean_at(s, k) && scan(s, k + 1))
}

/// A text that is clean from `k` on is clean at every place from `k` on.
proof fn scanned(s: Seq<char>, k: int, i: int)
    requires
        scan(s, k),
        k <= i < s.len() - 1,
    ensures
        clean_at(s, i),
    decreases s.len() - k,
{
    if k < i {
        scanned(s, k + 1, i);
    }
}

/// A text that is clean from its start on is clean.
proof fn scanned_is_clean(s: Seq<char>)
    requires
        scan(s, 0),
        s.len() > 0 ==> s[0] != '_' && s[0] != 'r',
    ensures
        clean(s),
{
    assert forall|i: int| 0 <= i < s.len() - 1 implies #[trigger] clean_at(s, i) by {
        scanned(s, 0, i);
    }
}

/// `s` is made of hexadecimal digits, dots, colons and slashes, as a CIDR string is.
pub open spec fn is_cidr_text(s: Seq<char>) -> bool {
    forall|i: int|
        0 <= i < s.len() ==> (digit_value(#[trigger] s[i], 16) is Some || s[i] == '.' || s[i] == ':'
            || s[i] == '/')
}

/// A CIDR string is clean.
proof fn cidr_text_is_clean(s: Seq<char>)
    requires
        is_cidr_text(s),
    ensures
        clean(s),
{
    if s.len() > 0 {
        assert(digit_value(s[0], 16) is Some || s[0] == '.' || s[0] == ':' || s[0] == '/');
    }
    assert forall|i: int| 0 <= i < s.len() - 1 implies #[trigger] clean_at(s, i) by {
        assert(digit_value(s[i], 16) is Some || s[i] == '.' || s[i] == ':' || s[i] == '/');
    }
}

/// A join of clean texts is clean.
proof fn joined_is_clean(p: Seq<Seq<char>>)
    requires
        forall|i: int| 0 <= i < p.len() ==> clean(#[trigger] p[i]),
    ensures
        clean(joined(p, ", "@)),
    decreases p.len(),
{
    if p.len() > 1 {
        let front = p.drop_last();
        assert forall|i: int| 0 <= i < front.len() implies clean(#[trigger] front[i]) by {
            assert(front[i] == p[i]);
        }
        joined_is_clean(front);
        reveal_strlit(", ");
        reveal_with_fuel(scan, 4);
        scanned_is_clean(", "@);
        clean_sum(joined(front, ", "@), ", "@);
        assert(clean(p[p.len() - 1]));
        clean_sum(joined(front, ", "@) + ", "@, p.last());
    }
}

/// The text of a range is a CIDR string.
proof fn net_texts_are_cidr(a: Seq<char>, n: nat)
    requires
        is_plain_address(a),
    ensures
        is_cidr_text(a.push('/') + decimal(n)),
{
    plain_numeral(n, 10);
    let s = a.push('/') + decimal(n);
    assert forall|i: int| 0 <= i < s.len() implies (digit_value(#[trigger] s[i], 16) is Some || s[i]
        == '.' || s[i] == ':' || s[i] == '/') by {
        if i < a.len() {
            assert(s[i] == a[i]);
        } else if i > a.len() {
            assert(s[i] == decimal(n)[i - a.len() - 1]);
        }
    }
}

/// The words of the lines that replace the table are clean.
proof fn table_words_are_clean()
    ensures
        clean("table inet "@),
        clean(" {}"@),
        clean("delete table inet "@),
        clean(" {"@),
        clean("}"@),
        clean(TABLE@),
{
    reveal_with_fuel(scan, 60);
    reveal_strlit("table inet ");
    assert(scan("table inet "@, 0));
    scanned_is_clean("table inet "@);
    reveal_strlit(" {}");
    assert(scan(" {}"@, 0));
    scanned_is_clean(" {}"@);
    reveal_strlit("delete table inet ");
    assert(scan("delete table inet "@, 0));
    scanned_is_clean("delete table inet "@);
    reveal_strlit(" {");
    assert(scan(" {"@, 0));
    scanned_is_clean(" {"@);
    reveal_strlit("}");
    assert(scan("}"@, 0));
    scanned_is_clean("}"@);
    reveal_strlit("castellan");
    assert(scan("castellan"@, 0));
    scanned_is_clean("castellan"@);
}

/// The words of the lines that declare the sets are clean.
proof fn set_words_are_clean()
    ensures
        clean("  set "@),
        clean(" { type "@),
        clean("ipv4_addr"@),
        clean("ipv6_addr"@),
        clean("; flags timeout; }"@),
        clean("; flags interval;"@),
        clean(" elements = { "@),
        clean(" };"@),
        clean(" }"@),
        clean(SET_ALLOWED_V4@),
        clean(SET_ALLOWED_V6@),
        clean(SET_STATIC_V4@),
        clean(SET_STATIC_V6@),
{
    reveal_with_fuel(scan, 60);
    reveal_strlit("  set ");
    assert(scan("  set "@, 0));
    scanned_is_clean("  set "@);
    reveal_strlit(" { type ");
    assert(scan(" { type "@, 0));
    scanned_is_clean(" { type "@);
    reveal_strlit("ipv4_addr");
    assert(scan("ipv4_addr"@, 0));
    scanned_is_clean("ipv4_addr"@);
    reveal_strlit("ipv6_addr");
    assert(scan("ipv6_addr"@, 0));
    scanned_is_clean("ipv6_addr"@);
    reveal_strlit("; flags timeout; }");
    assert(scan("; flags timeout; }"@, 0));
    scanned_is_clean("; flags timeout; }"@);
    reveal_strlit("; flags interval;");
    assert(scan("; flags interval;"@, 0));
    scanned_is_clean("; flags interval;"@);
    reveal_strlit(" elements = { ");
    assert(scan(" elements = { "@, 0));
    scanned_is_clean(" elements = { "@);
    reveal_strlit(" };");
    assert(scan(" };"@, 0));
    scanned_is_clean(" };"@);
    reveal_strlit(" }");
    assert(scan(" }"@, 0));
    scanned_is_clean(" }"@);
    reveal_strlit("allowed_v4");
    assert(scan("allowed_v4"@, 0));
    scanned_is_clean("allowed_v4"@);
    reveal_strlit("allowed_v6");
    assert(scan("allowed_v6"@, 0));
    scanned_is_clean("allowed_v6"@);
    reveal_strlit("static_v4");
    assert(scan("static_v4"@, 0));
    scanned_is_clean("static_v4"@);
    reveal_strlit("static_v6");
    assert(scan("static_v6"@, 0));
    scanned_is_clean("static_v6"@);
}

/// The words of the rules are clean.
proof fn rule_words_are_clean()
    ensures
        clean("    ip6 "@),
        clean("    ip "@),
        clean("saddr"@),
        clean("daddr"@),
        clean(" "@),
        clean(" accept"@),
        clean("    ip daddr "@),
        clean("    ip6 daddr "@),
        clean("udp"@),
        clean("tcp"@),
        clean(" dport 53 accept"@),
        clean("    "@),
        clean("ip"@),
        clean("ip6"@),
        clean(" daddr @"@),
{
    reveal_with_fuel(scan, 60);
    reveal_strlit("    ip6 ");
    assert(scan("    ip6 "@, 0));
    scanned_is_clean("    ip6 "@);
    reveal_strlit("    ip ");
    assert(scan("    ip "@, 0));
    scanned_is_clean("    ip "@);
    reveal_strlit("saddr");
    assert(scan("saddr"@, 0));
    scanned_is_clean("saddr"@);
    reveal_strlit("daddr");
    assert(scan("daddr"@, 0));
    scanned_is_clean("daddr"@);
    reveal_strlit(" ");
    assert(scan(" "@, 0));
    scanned_is_clean(" "@);
    reveal_strlit(" accept");
    assert(scan(" accept"@, 0));
    scanned_is_clean(" accept"@);
    reveal_strlit("    ip daddr ");
    assert(scan("    ip daddr "@, 0));
    scanned_is_clean("    ip daddr "@);
    reveal_strlit("    ip6 daddr ");
    assert(scan("    ip6 daddr "@, 0));
    scanned_is_clean("    ip6 daddr "@);
    reveal_strlit("udp");
    assert(scan("udp"@, 0));
    scanned_is_clean("udp"@);
    reveal_strlit("tcp");
    assert(scan("tcp"@, 0));
    scanned_is_clean("tcp"@);
    reveal_strlit(" dport 53 accept");
    assert(scan(" dport 53 accept"@, 0));
    scanned_is_clean(" dport 53 accept"@);
    reveal_strlit("    ");
    assert(scan("    "@, 0));
    scanned_is_clean("    "@);
    reveal_strlit("ip");
    assert(scan("ip"@, 0));
    scanned_is_clean("ip"@);
    reveal_strlit("ip6");
    assert(scan("ip6"@, 0));
    scanned_is_clean("ip6"@);
    reveal_strlit(" daddr @");
    assert(scan(" daddr @"@, 0));
    scanned_is_clean(" daddr @"@);
}

/// The lines that open, close and begin the filter chains are clean.
proof fn chain_lines_are_clean()
    ensures
        clean("  chain input {"@),
        clean("    type filter hook input priority 0; policy drop;"@),
        clean("    ct state established,related accept"@),
        clean("    iif \"lo\" accept"@),
        clean("  }"@),
        clean("  chain output {"@),
        clean("    type filter hook output priority 0; policy drop;"@),
        clean("    oif \"lo\" accept"@),
{
    reveal_with_fuel(scan, 60);
    reveal_strlit("  chain input {");
    assert(scan("  chain input {"@, 0));
    scanned_is_clean("  chain input {"@);
    reveal_strlit("    type filter hook input priority 0; policy drop;");
    assert(scan("    type filter hook input priority 0; policy drop;"@, 0));
    scanned_is_clean("    type filter hook input priority 0; policy drop;"@);
    reveal_strlit("    ct state established,related accept");
    assert(scan("    ct state established,related accept"@, 0));
    scanned_is_clean("    ct state established,related accept"@);
    reveal_strlit("    iif \"lo\" accept");
    assert(scan("    iif \"lo\" accept"@, 0));
    scanned_is_clean("    iif \"lo\" accept"@);
    reveal_strlit("  }");
    assert(scan("  }"@, 0));
    scanned_is_clean("  }"@);
    reveal_strlit("  chain output {");
    assert(scan("  chain output {"@, 0));
    scanned_is_clean("  chain output {"@);
    reveal_strlit("    type filter hook output priority 0; policy drop;");
    assert(scan("    type filter hook output priority 0; policy drop;"@, 0));
    scanned_is_clean("    type filter hook output priority 0; policy drop;"@);
    reveal_strlit("    oif \"lo\" accept");
    assert(scan("    oif \"lo\" accept"@, 0));
    scanned_is_clean("    oif \"lo\" accept"@);
}

/// Clean lines make a clean text.
proof fn lined_is_clean(lines: Seq<Seq<char>>)
    requires
        forall|i: int| 0 <= i < lines.len() ==> clean(#[trigger] lines[i]),
    ensures
        clean(lined(lines)),
    decreases lines.len(),
{
    if lines.len() > 0 {
        let front = lines.drop_last();
        assert forall|i: int| 0 <= i < front.len() implies clean(#[trigger] front[i]) by {
            assert(front[i] == lines[i]);
        }
        lined_is_clean(front);
        let last = lines[lines.len() - 1];
        assert(clean(seq!['\n'])) by {
            reveal_with_fuel(scan, 2);
            scanned_is_clean(seq!['\n']);
        }
        clean_sum(last, seq!['\n']);
        assert(last.push('\n') =~= last + seq!['\n']);
        clean_sum(lined(front), last.push('\n'));
    }
}

/// The lines that replace the table, and those that declare the sets, are clean.
proof fn sets_are_clean(static_v4: Seq<Ipv4Net>, static_v6: Seq<Ipv6Net>)
    ensures
        forall|i: int| 0 <= i < 3 ==> clean(#[trigger] table_lines()[i]),
        forall|i: int| 0 <= i < 4 ==> clean(#[trigger] set_lines(static_v4, static_v6)[i]),
{
    table_words_are_clean();
    set_words_are_clean();
    clean_sum("table inet "@, TABLE@);
    clean_sum("table inet "@ + TABLE@, " {}"@);
    clean_sum("delete table inet "@, TABLE@);
    clean_sum("table inet "@ + TABLE@, " {"@);
    dynamic_set_is_clean(SET_ALLOWED_V4@, "ipv4_addr"@);
    dynamic_set_is_clean(SET_ALLOWED_V6@, "ipv6_addr"@);
    let e = v4_net_texts(static_v4);
    assert forall|i: int| 0 <= i < e.len() implies clean(#[trigger] e[i]) by {
        address_text_is_plain(IpAddr::V4(static_v4[i].addr));
        net_texts_are_cidr(ip_text(IpAddr::V4(static_v4[i].addr)), static_v4[i].prefix_len as nat);
        cidr_text_is_clean(e[i]);
    }
    static_set_is_clean(SET_STATIC_V4@, "ipv4_addr"@, e);
    let e = v6_net_texts(static_v6);
    assert forall|i: int| 0 <= i < e.len() implies clean(#[trigger] e[i]) by {
        address_text_is_plain(IpAddr::V6(static_v6[i].addr));
        net_texts_are_cidr(ip_text(IpAddr::V6(static_v6[i].addr)), static_v6[i].prefix_len as nat);
        cidr_text_is_clean(e[i]);
    }
    static_set_is_clean(SET_STATIC_V6@, "ipv6_addr"@, e);
}

/// The line that declares a set whose elements expire is clean.
proof fn dynamic_set_is_clean(name: Seq<char>, kind: Seq<char>)
    requires
        clean(name),
        clean(kind),
    ensures
        clean(dynamic_set(name, kind)),
{
    set_words_are_clean();
    clean_sum("  set "@, name);
    clean_sum("  set "@ + name, " { type "@);
    clean_sum("  set "@ + name + " { type "@, kind);
    clean_sum("  set "@ + name + " { type "@ + kind, "; flags timeout; }"@);
}

/// The line that declares a set of ranges is clean.
proof fn static_set_is_clean(name: Seq<char>, kind: Seq<char>, elements: Seq<Seq<char>>)
    requires
        clean(name),
        clean(kind),
        forall|i: int| 0 <= i < elements.len() ==> clean(#[trigger] elements[i]),
    ensures
        clean(static_set(name, kind, elements)),
{
    set_words_are_clean();
    clean_sum("  set "@, name);
    clean_sum("  set "@ + name, " { type "@);
    clean_sum("  set "@ + name + " { type "@, kind);
    let head = "  set "@ + name + " { type "@ + kind + "; flags interval;"@;
    clean_sum("  set "@ + name + " { type "@ + kind, "; flags interval;"@);
    clean_sum(head, " }"@);
    joined_is_clean(elements);
    let list = joined(elements, ", "@);
    clean_sum(head, " elements = { "@);
    clean_sum(head + " elements = { "@, list);
    clean_sum(head + " elements = { "@ + list, " };"@);
    clean_sum(head + " elements = { "@ + list + " };"@, " }"@);
}

/// The rule for a host network is clean.
proof fn host_rule_is_clean(side: Seq<char>, net: Seq<char>)
    requires
        clean(side),
        is_cidr_text(net),
    ensures
        clean(host_rule(side, net)),
{
    rule_words_are_clean();
    cidr_text_is_clean(net);
    let head = if net.contains(':') {
        "    ip6 "@
    } else {
        "    ip "@
    };
    clean_sum(head, side);
    clean_sum(head + side, " "@);
    clean_sum(head + side + " "@, net);
    clean_sum(head + side + " "@ + net, " accept"@);
}

/// The rule for an upstream is clean.
proof fn upstream_rule_is_clean(a: IpAddr, protocol: Seq<char>)
    requires
        clean(protocol),
    ensures
        clean(upstream_rule(a, protocol)),
{
    rule_words_are_clean();
    address_text_is_plain(a);
    let t = ip_text(a);
    assert(is_cidr_text(t)) by {
        assert forall|i: int| 0 <= i < t.len() implies (digit_value(#[trigger] t[i], 16) is Some
            || t[i] == '.' || t[i] == ':' || t[i] == '/') by {}
    }
    cidr_text_is_clean(t);
    let head = match a {
        IpAddr::V4(_) => "    ip daddr "@,
        IpAddr::V6(_) => "    ip6 daddr "@,
    };
    clean_sum(head, t);
    clean_sum(head + t, " "@);
    clean_sum(head + t + " "@, protocol);
    clean_sum(head + t + " "@ + protocol, " dport 53 accept"@);
}

/// The rules for the upstreams are clean.
proof fn upstream_rules_are_clean(upstreams: Seq<IpAddr>)
    ensures
        forall|i: int|
            0 <= i < upstream_rules(upstreams).len() ==> clean(
                #[trigger] upstream_rules(upstreams)[i],
            ),
    decreases upstreams.len(),
{
    if upstreams.len() > 0 {
        let rest = upstreams.drop_last();
        let front = upstream_rules(rest);
        let all = upstream_rules(upstreams);
        upstream_rules_are_clean(rest);
        rule_words_are_clean();
        upstream_rule_is_clean(upstreams.last(), "udp"@);
        upstream_rule_is_clean(upstreams.last(), "tcp"@);
        assert forall|i: int| 0 <= i < all.len() implies clean(#[trigger] all[i]) by {
            if i < front.len() {
                assert(all[i] == front[i]);
            }
        }
    }
}

/// The rule for a set is clean.
proof fn set_rule_is_clean(family: Seq<char>, name: Seq<char>)
    requires
        clean(family),
        clean(name),
    ensures
        clean(set_rule(family, name)),
{
    rule_words_are_clean();
    clean_sum("    "@, family);
    clean_sum("    "@ + family, " daddr @"@);
    clean_sum("    "@ + family + " daddr @"@, name);
    clean_sum("    "@ + family + " daddr @"@ + name, " accept"@);
}

/// The lines of the filter chains are clean.
proof fn chains_are_clean(upstreams: Seq<IpAddr>, nets: Seq<Seq<char>>)
    requires
        forall|i: int| 0 <= i < nets.len() ==> is_cidr_text(#[trigger] nets[i]),
    ensures
        forall|i: int|
            0 <= i < input_lines(nets).len() ==> clean(#[trigger] input_lines(nets)[i]),
        forall|i: int|
            0 <= i < output_lines(upstreams, nets).len() ==> clean(
                #[trigger] output_lines(upstreams, nets)[i],
            ),
{
    chain_lines_are_clean();
    rule_words_are_clean();
    set_words_are_clean();
    upstream_rules_are_clean(upstreams);
    set_rule_is_clean("ip"@, SET_STATIC_V4@);
    set_rule_is_clean("ip6"@, SET_STATIC_V6@);
    set_rule_is_clean("ip"@, SET_ALLOWED_V4@);
    set_rule_is_clean("ip6"@, SET_ALLOWED_V6@);
    let l = input_lines(nets);
    assert forall|i: int| 0 <= i < l.len() implies clean(#[trigger] l[i]) by {
        if 4 <= i < 4 + nets.len() {
            assert(l[i] == host_rule("saddr"@, nets[i - 4]));
            host_rule_is_clean("saddr"@, nets[i - 4]);
        }
    }
    let l = output_lines(upstreams, nets);
    let u = upstream_rules(upstreams);
    assert forall|i: int| 0 <= i < l.len() implies clean(#[trigger] l[i]) by {
        if 4 <= i < 4 + u.len() {
            assert(l[i] == u[i - 4]);
        } else if 4 + u.len() <= i < 4 + u.len() + nets.len() {
            let k = i - 4 - u.len();
            assert(l[i] == host_rule("daddr"@, nets[k]));
            host_rule_is_clean("daddr"@, nets[k]);
        }
    }
}

/// Without interception the text of the ruleset holds neither the chain that intercepts DNS nor
/// a redirection.
pub proof fn nothing_is_redirected_without_interception(p: Rules)
    requires
        !p.intercept,
        forall|i: int|
            0 <= i < p.host_networks.len() ==> is_cidr_text(#[trigger] p.host_networks[i]),
    ensures
        !occurs(lined(ruleset_lines(p)), "nat_output"@),
        !occurs(lined(ruleset_lines(p)), "redirect"@),
{
    let t = table_lines();
    let s = set_lines(p.static_v4, p.static_v6);
    let i = input_lines(p.host_networks);
    let o = output_lines(p.upstreams, p.host_networks);
    let whole = ruleset_lines(p);
    sets_are_clean(p.static_v4, p.static_v6);
    chains_are_clean(p.upstreams, p.host_networks);
    table_words_are_clean();
    assert forall|k: int| 0 <= k < whole.len() implies clean(#[trigger] whole[k]) by {
        let a = t.len();
        let b = a + s.len();
        let c = b + i.len();
        let d = c + o.len();
        if k < a {
            assert(whole[k] == t[k]);
        } else if k < b {
            assert(whole[k] == s[k - a]);
        } else if k < c {
            assert(whole[k] == i[k - b]);
        } else if k < d {
            assert(whole[k] == o[k - c]);
        } else {
            assert(whole[k] == "}"@);
        }
    }
    lined_is_clean(whole);
    clean_holds_neither(lined(whole));
}

/// The host networks that are detected are CIDR strings.
pub proof fn detected_networks_are_cidr_texts(lines: Seq<Seq<char>>, i: int)
    requires
        0 <= i < host_networks_of(lines).len(),
    ensures
        is_cidr_text(host_networks_of(lines)[i]),
    decreases lines.len(),
{
    let front = host_networks_of(lines.drop_last());
    if i < front.len() {
        detected_networks_are_cidr_texts(lines.drop_last(), i);
        assert(host_networks_of(lines)[i] == front[i]);
    } else if let Some(IpAddr::V4(a)) = gateway_of(lines.last()) {
        network_text_is_cidr(a);
    }
}

/// The text of a host network is a CIDR string.
proof fn network_text_is_cidr(a: Ipv4Addr)
    ensures
        is_cidr_text(network_text(a)),
{
    reveal_strlit(".");
    reveal_strlit(".0/24");
    let x = decimal(a.octets[0] as nat);
    let y = decimal(a.octets[1] as nat);
    let z = decimal(a.octets[2] as nat);
    plain_numeral(a.octets[0] as nat, 10);
    plain_numeral(a.octets[1] as nat, 10);
    plain_numeral(a.octets[2] as nat, 10);
    cidr_text_sum(x, "."@);
    cidr_text_sum(x + "."@, y);
    cidr_text_sum(x + "."@ + y, "."@);
    cidr_text_sum(x + "."@ + y + "."@, z);
    cidr_text_sum(x + "."@ + y + "."@ + z, ".0/24"@);
}

/// CIDR strings, one after the other, are made of the same characters.
proof fn cidr_text_sum(a: Seq<char>, b: Seq<char>)
    requires
        is_cidr_text(a),
        is_cidr_text(b),
    ensures
        is_cidr_text(a + b),
{
    let s = a + b;
    assert forall|i: int| 0 <= i < s.len() implies (digit_value(#[trigger] s[i], 16) is Some || s[i]
        == '.' || s[i] == ':' || s[i] == '/') by {
        if i < a.len() {
            assert(s[i] == a[i]);
        } else {
            assert(s[i] == b[i - a.len()]);
        }
    }
}

} // verus!
