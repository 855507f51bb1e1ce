//! What holds of every ruleset.

use vstd::prelude::*;

use crate::addr::IpAddr;
use crate::nft::{
    host_rule, host_rules, input_lines, is_loopback, nat_lines, output_lines, ruleset_lines,
    set_lines, set_rule, table_lines, upstream_rule, upstream_rules, Rules, SET_ALLOWED_V4,
    SET_ALLOWED_V6, SET_STATIC_V4, SET_STATIC_V6,
};

verus! {

/// `part` occurs in `whole`, with nothing in between.
pub open spec fn holds_run(whole: Seq<Seq<char>>, part: Seq<Seq<char>>) -> bool {
    exists|i: int|
        0 <= i && i + part.len() <= whole.len() && #[trigger] whole.subrange(i, i + part.len())
            == part
}

/// A part between two others occurs in the whole.
proof fn middle_occurs(a: Seq<Seq<char>>, b: Seq<Seq<char>>, c: Seq<Seq<char>>)
    ensures
        holds_run(a + b + c, b),
{
    let whole = a + b + c;
    let i = a.len() as int;
    assert(whole.subrange(i, i + b.len()) =~= b);
}

/// Every ruleset replaces the table from scratch, and declares the sets and the two filter
/// chains.
pub proof fn ruleset_is_complete(p: Rules)
    ensures
        ruleset_lines(p).take(3) == table_lines(),
        holds_run(ruleset_lines(p), set_lines(p.static_v4, p.static_v6)),
        holds_run(ruleset_lines(p), input_lines(p.host_networks)),
        holds_run(ruleset_lines(p), output_lines(p.upstreams, p.host_networks)),
        ruleset_lines(p).last() == "}"@,
{
    let nets = p.host_networks;
    let t = table_lines();
    let s = set_lines(p.static_v4, p.static_v6);
    let i = input_lines(nets);
    let o = output_lines(p.upstreams, nets);
    let n = if p.intercept {
        nat_lines(p.resolver_port)
    } else {
        Seq::empty()
    };
    let e = seq!["}"@];
    let whole = ruleset_lines(p);
    assert(whole =~= t + s + i + o + n + e);
    assert(whole.take(3) =~= t);
    assert(whole =~= t + s + (i + o + n + e));
    middle_occurs(t, s, i + o + n + e);
    assert(whole =~= (t + s) + i + (o + n + e));
    middle_occurs(t + s, i, o + n + e);
    assert(whole =~= (t + s + i) + o + (n + e));
    middle_occurs(t + s + i, o, n + e);
}

/// Both filter chains drop what no rule accepts.
pub proof fn default_is_drop(upstreams: Seq<IpAddr>, nets: Seq<Seq<char>>)
    ensures
        input_lines(nets)[0] == "  chain input {"@,
        input_lines(nets)[1] == "    type filter hook input priority 0; policy drop;"@,
        output_lines(upstreams, nets)[0] == "  chain output {"@,
        output_lines(upstreams, nets)[1] == "    type filter hook output priority 0; policy drop;"@,
{
}

/// The line that opens the chain that intercepts DNS.
pub open spec fn intercept_line() -> Seq<char> {
    "  chain nat_output {"@
}

/// A line that is shorter than three characters, or whose third character is not `c`, does not
/// open the chain that intercepts DNS; nor does one whose ninth character is not `n`.
proof fn not_intercept(line: Seq<char>)
    requires
        line.len() <= 8 || line[2] != 'c' || line[8] != 'n',
    ensures
        line != intercept_line(),
{
    reveal_strlit("  chain nat_output {");
}

/// No rule opens the chain that intercepts DNS.
proof fn rules_do_not_intercept(side: Seq<char>, nets: Seq<Seq<char>>, upstreams: Seq<IpAddr>)
    ensures
        !host_rules(side, nets).contains(intercept_line()),
        !upstream_rules(upstreams).contains(intercept_line()),
    decreases upstreams.len(),
{
    reveal_strlit("    ip ");
    reveal_strlit("    ip6 ");
    reveal_strlit("    ip daddr ");
    reveal_strlit("    ip6 daddr ");
    assert forall|i: int| 0 <= i < nets.len() implies host_rules(side, nets)[i]
        != intercept_line() by {
        not_intercept(host_rule(side, nets[i]));
    }
    if upstreams.len() > 0 {
        rules_do_not_intercept(side, nets, upstreams.drop_last());
        let front = upstream_rules(upstreams.drop_last());
        let a = upstreams.last();
        not_intercept(upstream_rule(a, "udp"@));
        not_intercept(upstream_rule(a, "tcp"@));
        let all = upstream_rules(upstreams);
        assert forall|i: int| 0 <= i < all.len() implies all[i] != intercept_line() by {
            if i < front.len() {
                assert(all[i] == front[i]);
            }
        }
    }
}

/// No set opens the chain that intercepts DNS, nor does what replaces the table.
proof fn sets_do_not_intercept(p: Rules)
    ensures
        !table_lines().contains(intercept_line()),
        !set_lines(p.static_v4, p.static_v6).contains(intercept_line()),
{
    reveal_strlit("table inet ");
    reveal_strlit("delete table inet ");
    reveal_strlit("  set ");
    let t = table_lines();
    assert forall|i: int| 0 <= i < t.len() implies t[i] != intercept_line() by {
        not_intercept(t[i]);
    }
    let s = set_lines(p.static_v4, p.static_v6);
    assert forall|i: int| 0 <= i < s.len() implies s[i] != intercept_line() by {
        not_intercept(s[i]);
    }
}

/// The filter chains do not open the chain that intercepts DNS.
proof fn filters_do_not_intercept(upstreams: Seq<IpAddr>, nets: Seq<Seq<char>>)
    ensures
        !input_lines(nets).contains(intercept_line()),
        !output_lines(upstreams, nets).contains(intercept_line()),
{
    reveal_strlit("  chain input {");
    reveal_strlit("    type filter hook input priority 0; policy drop;");
    reveal_strlit("    ct state established,related accept");
    reveal_strlit("    iif \"lo\" accept");
    reveal_strlit("  }");
    reveal_strlit("  chain output {");
    reveal_strlit("    type filter hook output priority 0; policy drop;");
    reveal_strlit("    oif \"lo\" accept");
    reveal_strlit("    ");
    reveal_strlit("ip");
    reveal_strlit("ip6");
    rules_do_not_intercept("saddr"@, nets, upstreams);
    rules_do_not_intercept("daddr"@, nets, upstreams);
    let l = input_lines(nets);
    let h = host_rules("saddr"@, nets);
    assert forall|i: int| 0 <= i < l.len() implies l[i] != intercept_line() by {
        if 4 <= i < 4 + h.len() {
            assert(l[i] == h[i - 4]);
        } else {
            not_intercept(l[i]);
        }
    }
    let l = output_lines(upstreams, nets);
    let u = upstream_rules(upstreams);
    let h = host_rules("daddr"@, nets);
    assert forall|i: int| 0 <= i < l.len() implies l[i] != intercept_line() by {
        if 4 <= i < 4 + u.len() {
            assert(l[i] == u[i - 4]);
        } else if 4 + u.len() <= i < 4 + u.len() + h.len() {
            assert(l[i] == h[i - 4 - u.len()]);
        } else {
            not_intercept(l[i]);
        }
    }
}

/// The chain that intercepts DNS is installed exactly if that is asked for. It is then installed
/// whole, in the same transaction as the chains that drop.
pub proof fn intercepts_iff_asked(p: Rules)
    ensures
        ruleset_lines(p).contains(intercept_line()) == p.intercept,
        p.intercept ==> holds_run(ruleset_lines(p), nat_lines(p.resolver_port)),
{
    let nets = p.host_networks;
    let t = table_lines();
    let s = set_lines(p.static_v4, p.static_v6);
    let i = input_lines(nets);
    let o = output_lines(p.upstreams, nets);
    let e = seq!["}"@];
    let whole = ruleset_lines(p);
    if p.intercept {
        let n = nat_lines(p.resolver_port);
        middle_occurs(t + s + i + o, n, e);
        assert(whole =~= (t + s + i + o) + n + e);
        let k = (t + s + i + o).len() as int;
        assert(whole[k] == n[0]);
    } else {
        sets_do_not_intercept(p);
        filters_do_not_intercept(p.upstreams, nets);
        reveal_strlit("}");
        not_intercept("}"@);
        assert forall|k: int| 0 <= k < whole.len() implies whole[k] != intercept_line() by {
            let a = t.len();
            let b = a + s.len();
            let c = b + i.len();
            let d = c + o.len();
            if k < a {
                assert(whole[k] == t[k]);
            } else if k < b {
                assert(whole[k] == s[k - a]);
            } else if k < c {
                assert(whole[k] == i[k - b]);
            } else if k < d {
                assert(whole[k] == o[k - c]);
            } else {
                assert(whole[k] == e[k - d]);
            }
        }
    }
}

/// The rules of a part of the upstreams are among the rules of all of them.
proof fn upstream_rules_of(upstreams: Seq<IpAddr>, i: int)
    requires
        0 <= i < upstreams.len(),
        !is_loopback(upstreams[i]),
    ensures
        upstream_rules(upstreams).contains(upstream_rule(upstreams[i], "udp"@)),
        upstream_rules(upstreams).contains(upstream_rule(upstreams[i], "tcp"@)),
    decreases upstreams.len(),
{
    let front = upstream_rules(upstreams.drop_last());
    let all = upstream_rules(upstreams);
    let udp = upstream_rule(upstreams[i], "udp"@);
    let tcp = upstream_rule(upstreams[i], "tcp"@);
    if i == upstreams.len() - 1 {
        assert(all[front.len() as int] == udp);
        assert(all[front.len() as int + 1] == tcp);
    } else {
        upstream_rules_of(upstreams.drop_last(), i);
        let j = choose|j: int| 0 <= j < front.len() && front[j] == udp;
        assert(all[j] == udp);
        let j = choose|j: int| 0 <= j < front.len() && front[j] == tcp;
        assert(all[j] == tcp);
    }
}

/// The daemon can reach every upstream that is not a loopback address, over UDP and over TCP.
pub proof fn upstreams_can_be_reached(upstreams: Seq<IpAddr>, nets: Seq<Seq<char>>, i: int)
    requires
        0 <= i < upstreams.len(),
        !is_loopback(upstreams[i]),
    ensures
        output_lines(upstreams, nets).contains(upstream_rule(upstreams[i], "udp"@)),
        output_lines(upstreams, nets).contains(upstream_rule(upstreams[i], "tcp"@)),
{
    let rules = upstream_rules(upstreams);
    let all = output_lines(upstreams, nets);
    upstream_rules_of(upstreams, i);
    let udp = upstream_rule(upstreams[i], "udp"@);
    let tcp = upstream_rule(upstreams[i], "tcp"@);
    let j = choose|j: int| 0 <= j < rules.len() && rules[j] == udp;
    assert(all[4 + j] == udp);
    let j = choose|j: int| 0 <= j < rules.len() && rules[j] == tcp;
    assert(all[4 + j] == tcp);
}

/// A loopback upstream adds no rule.
pub proof fn loopback_upstream_adds_nothing(upstreams: Seq<IpAddr>, nets: Seq<Seq<char>>, i: int)
    requires
        0 <= i < upstreams.len(),
        is_loopback(upstreams[i]),
    ensures
        output_lines(upstreams.remove(i), nets) == output_lines(upstreams, nets),
{
    loopback_rule_is_empty(upstreams, i);
}

/// Leaving out a loopback upstream leaves the rules as they are.
proof fn loopback_rule_is_empty(upstreams: Seq<IpAddr>, i: int)
    requires
        0 <= i < upstreams.len(),
        is_loopback(upstreams[i]),
    ensures
        upstream_rules(upstreams.remove(i)) == upstream_rules(upstreams),
    decreases upstreams.len(),
{
    let rest = upstreams.remove(i);
    if i == upstreams.len() - 1 {
        assert(rest == upstreams.drop_last());
    } else {
        loopback_rule_is_empty(upstreams.drop_last(), i);
        assert(rest.drop_last() == upstreams.drop_last().remove(i));
        assert(rest.last() == upstreams.last());
    }
}

/// Host networks are let in and out.
pub proof fn host_networks_pass(upstreams: Seq<IpAddr>, nets: Seq<Seq<char>>, i: int)
    requires
        0 <= i < nets.len(),
    ensures
        input_lines(nets).contains(host_rule("saddr"@, nets[i])),
        output_lines(upstreams, nets).contains(host_rule("daddr"@, nets[i])),
{
    assert(input_lines(nets)[4 + i] == host_rule("saddr"@, nets[i]));
    assert(output_lines(upstreams, nets)[4 + upstream_rules(upstreams).len() + i] == host_rule(
        "daddr"@,
        nets[i],
    ));
}

/// What stands in the sets is let out.
pub proof fn set_members_pass(upstreams: Seq<IpAddr>, nets: Seq<Seq<char>>)
    ensures
        output_lines(upstreams, nets).contains(set_rule("ip"@, SET_ALLOWED_V4@)),
        output_lines(upstreams, nets).contains(set_rule("ip6"@, SET_ALLOWED_V6@)),
        output_lines(upstreams, nets).contains(set_rule("ip"@, SET_STATIC_V4@)),
        output_lines(upstreams, nets).contains(set_rule("ip6"@, SET_STATIC_V6@)),
{
    let k = (4 + upstream_rules(upstreams).len() + nets.len()) as int;
    let all = output_lines(upstreams, nets);
    assert(all[k] == set_rule("ip"@, SET_STATIC_V4@));
    assert(all[k + 1] == set_rule("ip6"@, SET_STATIC_V6@));
    assert(all[k + 2] == set_rule("ip"@, SET_ALLOWED_V4@));
    assert(all[k + 3] == set_rule("ip6"@, SET_ALLOWED_V6@));
}

/// `line` is a rule for DNS to one of the upstreams that are not loopback addresses.
pub open spec fn serves_upstream(line: Seq<char>, upstreams: Seq<IpAddr>) -> bool {
    exists|i: int|
        {
            &&& 0 <= i < upstreams.len()
            &&& !is_loopback(#[trigger] upstreams[i])
            &&& line == upstream_rule(upstreams[i], "udp"@) || line == upstream_rule(
                upstreams[i],
                "tcp"@,
            )
        }
}

/// `line` is a rule for one of the host networks.
pub open spec fn serves_host(line: Seq<char>, nets: Seq<Seq<char>>) -> bool {
    exists|i: int| 0 <= i < nets.len() && line == host_rule("daddr"@, #[trigger] nets[i])
}

/// Each rule for the upstreams is one for some upstream.
proof fn upstream_rules_serve(upstreams: Seq<IpAddr>, k: int)
    requires
        0 <= k < upstream_rules(upstreams).len(),
    ensures
        serves_upstream(upstream_rules(upstreams)[k], upstreams),
    decreases upstreams.len(),
{
    let rest = upstreams.drop_last();
    let front = upstream_rules(rest);
    let line = upstream_rules(upstreams)[k];
    if k < front.len() {
        upstream_rules_serve(rest, k);
        let i = choose|i: int|
            {
                &&& 0 <= i < rest.len()
                &&& !is_loopback(#[trigger] rest[i])
                &&& line == upstream_rule(rest[i], "udp"@) || line == upstream_rule(
                    rest[i],
                    "tcp"@,
                )
            };
        assert(upstreams[i] == rest[i]);
    } else {
        assert(!is_loopback(upstreams[upstreams.len() - 1]));
    }
}

/// Nothing else is let out: a line of the output chain opens or closes it, accepts established
/// connections, the loopback interface or the members of a set, or is a rule for an
/// upstream or for a host network.
pub proof fn nothing_else_is_let_out(upstreams: Seq<IpAddr>, nets: Seq<Seq<char>>, k: int)
    requires
        0 <= k < output_lines(upstreams, nets).len(),
    ensures
        ({
            let line = output_lines(upstreams, nets)[k];
            ||| line == "  chain output {"@
            ||| line == "    type filter hook output priority 0; policy drop;"@
            ||| line == "    ct state established,related accept"@
            ||| line == "    oif \"lo\" accept"@
            ||| line == set_rule("ip"@, SET_STATIC_V4@)
            ||| line == set_rule("ip6"@, SET_STATIC_V6@)
            ||| line == set_rule("ip"@, SET_ALLOWED_V4@)
            ||| line == set_rule("ip6"@, SET_ALLOWED_V6@)
            ||| line == "  }"@
            ||| serves_upstream(line, upstreams)
            ||| serves_host(line, nets)
        }),
{
    let u = upstream_rules(upstreams);
    let h = host_rules("daddr"@, nets);
    let all = output_lines(upstreams, nets);
    if 4 <= k < 4 + u.len() {
        upstream_rules_serve(upstreams, k - 4);
        assert(all[k] == u[k - 4]);
    } else if 4 + u.len() <= k < 4 + u.len() + h.len() {
        let i = k - 4 - u.len();
        assert(all[k] == h[i]);
        assert(h[i] == host_rule("daddr"@, nets[i]));
    }
}

} // verus!
