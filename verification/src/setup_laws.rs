//! What holds of every bootstrap.

use vstd::arithmetic::power2::{lemma2_to64, pow2};
use vstd::prelude::*;

use crate::addr::{
    address_text_is_plain, digit_value, ip_of, ip_reads_back, ip_text, is_number, number_value,
    octet_reads_back, IpAddr, Ipv4Addr, Ipv6Addr,
};
use crate::meta::{lists_cover, v4_of_lists, v6_of_lists, IpRanges};
use crate::net::{v4_aggregate, v4_covered, v4_net_of, v4_number, v6_aggregate, v6_covered};
use crate::setup::{
    backup_lines, gateway_of, host_networks_of, is_set, listener, named_upstreams,
    nameserver_of, network_text, recovered, repointed, ruleset_inputs, upstreams_of,
    RecoveryError,
};
use crate::text::{
    begins, cut, decimal, is_line, is_space, is_word, joined, lined, lines_of, lines_of_lined,
    numeral, pieces_of_joined, position_of_at, word_length, word_length_bounds, words_of,
    words_of_two,
};
use crate::text_laws::{is_blank, white_space_is_trimmed};

verus! {

/// The daemon never forwards to itself: no text names our own listener as an upstream.
pub proof fn never_its_own_upstream(text: Seq<char>)
    ensures
        !named_upstreams(text).contains(listener()),
{
    upstreams_leave_out_listener(lines_of(text));
}

/// No lines name our own listener as an upstream.
proof fn upstreams_leave_out_listener(lines: Seq<Seq<char>>)
    ensures
        !upstreams_of(lines).contains(listener()),
    decreases lines.len(),
{
    if lines.len() > 0 {
        upstreams_leave_out_listener(lines.drop_last());
        let front = upstreams_of(lines.drop_last());
        let all = upstreams_of(lines);
        assert forall|i: int| 0 <= i < all.len() implies all[i] != listener() by {
            if i < front.len() {
                assert(all[i] == front[i]);
                assert(front.contains(front[i]));
            }
        }
    }
}

/// The text of an address is one word.
proof fn address_is_word(a: IpAddr)
    ensures
        is_word(ip_text(a)),
{
    address_text_is_plain(a);
    let s = ip_text(a);
    assert forall|i: int| 0 <= i < s.len() implies !is_space(#[trigger] s[i]) by {
        assert(digit_value(s[i], 16) is Some || s[i] == '.' || s[i] == ':');
    }
}

/// A line that was written for an upstream names it, and is one line.
proof fn backup_line_reads_back(a: IpAddr)
    ensures
        nameserver_of("nameserver "@ + ip_text(a)) == Some(a),
        is_line("nameserver "@ + ip_text(a)),
{
    let line = "nameserver "@ + ip_text(a);
    reveal_strlit("nameserver ");
    reveal_strlit("nameserver");
    address_is_word(a);
    ip_reads_back(a);
    assert(line =~= "nameserver"@.push(' ') + ip_text(a));
    words_of_two("nameserver"@, ip_text(a));
    assert forall|i: int| 0 <= i < line.len() implies line[i] != '\n' && line[i] != '\r' by {
        if i >= 11 {
            assert(line[i] == ip_text(a)[i - 11]);
        }
    }
}

/// Lines that were written for upstreams name them.
proof fn backup_lines_read_back(upstreams: Seq<IpAddr>)
    requires
        !upstreams.contains(listener()),
    ensures
        upstreams_of(backup_lines(upstreams)) == upstreams,
    decreases upstreams.len(),
{
    if upstreams.len() > 0 {
        let rest = upstreams.drop_last();
        assert forall|i: int| 0 <= i < rest.len() implies rest[i] != listener() by {
            assert(upstreams.contains(upstreams[i]));
        }
        backup_lines_read_back(rest);
        assert(backup_lines(upstreams).drop_last() == backup_lines(rest));
        backup_line_reads_back(upstreams.last());
        assert(upstreams.contains(upstreams.last()));
        assert(rest.push(upstreams.last()) == upstreams);
    }
}

/// What a backup was written from can be recovered from it, as long as it does not name our own
/// listener.
pub proof fn backup_reads_back(upstreams: Seq<IpAddr>)
    requires
        !upstreams.contains(listener()),
    ensures
        named_upstreams(lined(backup_lines(upstreams))) == upstreams,
{
    let p = backup_lines(upstreams);
    assert forall|i: int| 0 <= i < p.len() implies is_line(#[trigger] p[i]) by {
        backup_line_reads_back(upstreams[i]);
    }
    lines_of_lined(p);
    backup_lines_read_back(upstreams);
}

/// A resolv.conf that was repointed names no upstream, so that a restart looks into the backup.
pub proof fn repointed_names_no_upstream()
    ensures
        named_upstreams("nameserver 127.0.0.1\n"@).len() == 0,
{
    let a = listener();
    let line = "nameserver "@ + ip_text(a);
    listener_text();
    reveal_strlit("nameserver 127.0.0.1\n");
    reveal_strlit("nameserver ");
    reveal_strlit("127.0.0.1");
    reveal_with_fuel(lined, 2);
    backup_line_reads_back(a);
    assert(seq![line].drop_last() == Seq::<Seq<char>>::empty());
    assert("nameserver 127.0.0.1\n"@ =~= lined(seq![line]));
    lines_of_lined(seq![line]);
    reveal_with_fuel(upstreams_of, 2);
}

/// The text of our own listener.
proof fn listener_text()
    ensures
        ip_text(listener()) == "127.0.0.1"@,
{
    reveal_strlit("127.0.0.1");
    reveal_with_fuel(numeral, 4);
    reveal_with_fuel(joined, 5);
    let o = [127u8, 0, 0, 1];
    let p = Seq::new(4, |i: int| decimal(o[i] as nat));
    assert(o[0] == 127 && o[1] == 0 && o[2] == 0 && o[3] == 1);
    assert(decimal(127) =~= seq!['1', '2', '7']);
    assert(decimal(0) =~= seq!['0']);
    assert(decimal(1) =~= seq!['1']);
    assert(p =~= seq![seq!['1', '2', '7'], seq!['0'], seq!['0'], seq!['1']]);
    assert(ip_text(listener()) =~= "127.0.0.1"@);
}

/// A restart recovers the upstreams of the first start: they were written to the backup when the
/// live file named them, and that file was repointed since.
pub proof fn restart_recovers_upstreams(current: Seq<char>)
    requires
        named_upstreams(current).len() > 0,
    ensures
        named_upstreams("nameserver 127.0.0.1\n"@).len() == 0,
        named_upstreams(lined(backup_lines(named_upstreams(current)))) == named_upstreams(current),
{
    repointed_names_no_upstream();
    never_its_own_upstream(current);
    backup_reads_back(named_upstreams(current));
}

/// The text of a host network reads as the /24 range of the gateway, which holds the gateway.
pub proof fn host_network_holds_the_gateway(a: Ipv4Addr)
    ensures
        v4_net_of(network_text(a)) matches Some(net) && net.prefix_len == 24 && net.holds(a)
            && net.addr.octets == [a.octets[0], a.octets[1], a.octets[2], 0u8],
{
    let s = network_text(a);
    let b = Ipv4Addr { octets: [a.octets[0], a.octets[1], a.octets[2], 0] };
    let p = Seq::new(4, |i: int| decimal(b.octets[i] as nat));
    let host = joined(p, seq!['.']);
    assert(b.octets[0] == a.octets[0] && b.octets[1] == a.octets[1] && b.octets[2] == a.octets[2]
        && b.octets[3] == 0);
    reveal_strlit(".");
    reveal_strlit(".0/24");
    reveal_strlit("/");
    reveal_with_fuel(joined, 5);
    assert(decimal(0) =~= seq!['0']);
    let slash = seq!['/', '2', '4'];
    assert(p[0] == decimal(a.octets[0] as nat) && p[1] == decimal(a.octets[1] as nat) && p[2]
        == decimal(a.octets[2] as nat) && p[3] == decimal(0));
    assert(p.drop_last().drop_last().drop_last() =~= seq![p[0]]);
    assert(host =~= p[0] + seq!['.'] + p[1] + seq!['.'] + p[2] + seq!['.'] + p[3]);
    assert(s =~= host + slash);
    address_text_is_plain(IpAddr::V4(b));
    let n = host.len() as int;
    assert forall|j: int| 0 <= j < n implies s[j] != '/' by {
        assert(s[j] == host[j]);
        assert(digit_value(host[j], 16) is Some || host[j] == '.' || host[j] == ':');
    }
    assert(s[n] == '/');
    assert forall|j: int| 0 <= j < n implies !begins(#[trigger] s.skip(j), "/"@) by {
        if begins(s.skip(j), "/"@) {
            assert(s.skip(j).take(1)[0] == "/"@[0]);
        }
    }
    assert(begins(s.skip(n), "/"@)) by {
        assert(s.skip(n).take(1) =~= "/"@);
    }
    position_of_at(s, "/"@, n);
    assert(s.take(n) =~= host);
    assert(s.skip(n + 1) =~= seq!['2', '4']);
    assert forall|i: int| 0 <= i < p.len() implies !(#[trigger] p[i]).contains('.') by {
        octet_reads_back(b.octets[i]);
    }
    pieces_of_joined(p, '.');
    octet_reads_back(b.octets[0]);
    octet_reads_back(b.octets[1]);
    octet_reads_back(b.octets[2]);
    octet_reads_back(b.octets[3]);
    let prefix = seq!['2', '4'];
    assert(prefix.drop_last() =~= seq!['2']);
    reveal_with_fuel(number_value, 3);
    assert(number_value(prefix, 10) == 24);
    assert(cut(s, "/"@) == Some((host, prefix)));
    assert(is_number(prefix, 10));
    assert(v4_net_of(s) is Some);
    let net = v4_net_of(s)->0;
    assert(net.addr.octets =~= b.octets);
    lemma2_to64();
    assert(pow2(8) == 256);
    assert(v4_number(a) / 256 == v4_number(b) / 256);
    assert(net.holds(a));
}

/// The ruleset is built from what was found: the upstreams and the port as given, the networks of
/// the default gateways, interception, and as seeds the ranges of the lists, merged, of both
/// families.
pub proof fn ruleset_inputs_are_what_was_found(
    upstreams: Seq<IpAddr>,
    routes: Seq<char>,
    lists: Seq<Option<IpRanges>>,
    port: u16,
    a: Ipv4Addr,
    b: Ipv6Addr,
)
    requires
        v4_covered(v4_aggregate(v4_of_lists(lists)), a) == v4_covered(v4_of_lists(lists), a),
        v6_covered(v6_aggregate(v6_of_lists(lists)), b) == v6_covered(v6_of_lists(lists), b),
    ensures
        ({
            let inputs = ruleset_inputs(upstreams, routes, lists, port);
            &&& inputs.upstreams == upstreams
            &&& inputs.resolver_port == port
            &&& inputs.intercept
            &&& inputs.host_networks == host_networks_of(lines_of(routes))
            &&& v4_covered(inputs.static_v4, a) <==> exists|i: int|
                0 <= i < lists.len() && #[trigger] lists[i] is Some && v4_covered(
                    lists[i]->0.v4@,
                    a,
                )
            &&& v6_covered(inputs.static_v6, b) <==> exists|i: int|
                0 <= i < lists.len() && #[trigger] lists[i] is Some && v6_covered(
                    lists[i]->0.v6@,
                    b,
                )
        }),
{
    lists_cover(lists, a, b);
}

/// The upstreams of lines after lines are those of both, in order.
pub proof fn upstreams_add_up(a: Seq<Seq<char>>, b: Seq<Seq<char>>)
    ensures
        upstreams_of(a + b) == upstreams_of(a) + upstreams_of(b),
    decreases b.len(),
{
    if b.len() == 0 {
        assert(a + b =~= a);
    } else {
        upstreams_add_up(a, b.drop_last());
        assert((a + b).drop_last() =~= a + b.drop_last());
        assert((a + b).last() == b.last());
        assert(upstreams_of(a + b) =~= upstreams_of(a) + upstreams_of(b));
    }
}

/// A line names an upstream exactly if its first word is `nameserver` and its second an address
/// other than `127.0.0.1`; what follows does not count.
pub proof fn line_names_its_upstream(line: Seq<char>)
    ensures
        words_of(line).len() < 2 || words_of(line)[0] != "nameserver"@ || ip_of(
            words_of(line)[1],
        ) is None ==> upstreams_of(seq![line]).len() == 0,
        words_of(line).len() >= 2 && words_of(line)[0] == "nameserver"@ ==> (
        ip_of(words_of(line)[1]) matches Some(a) ==> upstreams_of(seq![line]) == (if a
            == IpAddr::V4(Ipv4Addr { octets: [127, 0, 0, 1] }) {
            Seq::<IpAddr>::empty()
        } else {
            seq![a]
        })),
{
    assert(seq![line].drop_last() =~= Seq::<Seq<char>>::empty());
    assert(seq![line].last() == line);
    reveal_with_fuel(upstreams_of, 2);
}

/// Every `nameserver` line of an address other than our own gives that address.
pub proof fn nameserver_line_gives_its_address(a: IpAddr)
    requires
        a != IpAddr::V4(Ipv4Addr { octets: [127, 0, 0, 1] }),
    ensures
        upstreams_of(seq!["nameserver "@ + ip_text(a)]) == seq![a],
        named_upstreams("nameserver "@ + ip_text(a) + "\n"@) == seq![a],
{
    let line = "nameserver "@ + ip_text(a);
    backup_line_reads_back(a);
    assert(seq![line].drop_last() =~= Seq::<Seq<char>>::empty());
    assert(seq![line].last() == line);
    reveal_with_fuel(upstreams_of, 2);
    reveal_with_fuel(lined, 2);
    reveal_strlit("\n");
    assert(lined(seq![line]) =~= line + "\n"@);
    lines_of_lined(seq![line]);
}

/// The host networks of lines after lines are those of both, in order.
pub proof fn host_networks_add_up(a: Seq<Seq<char>>, b: Seq<Seq<char>>)
    ensures
        host_networks_of(a + b) == host_networks_of(a) + host_networks_of(b),
    decreases b.len(),
{
    if b.len() == 0 {
        assert(a + b =~= a);
    } else {
        host_networks_add_up(a, b.drop_last());
        assert((a + b).drop_last() =~= a + b.drop_last());
        assert((a + b).last() == b.last());
        assert(host_networks_of(a + b) =~= host_networks_of(a) + host_networks_of(b));
    }
}

/// A default route over an IPv4 gateway gives the network of the first three octets of the
/// gateway, whatever follows; one over an IPv6 gateway, and any other line, gives none.
pub proof fn default_route_gives_its_network(a: Ipv4Addr, b: Ipv6Addr, rest: Seq<char>)
    requires
        rest.len() > 0 ==> is_space(rest[0]),
    ensures
        host_networks_of(seq!["default via "@ + ip_text(IpAddr::V4(a)) + rest]) == seq![
            decimal(a.octets[0] as nat) + "."@ + decimal(a.octets[1] as nat) + "."@ + decimal(
                a.octets[2] as nat,
            ) + ".0/24"@,
        ],
        host_networks_of(seq!["default via "@ + ip_text(IpAddr::V6(b)) + rest]).len() == 0,
{
    gateway_reads_back(IpAddr::V4(a), rest);
    gateway_reads_back(IpAddr::V6(b), rest);
    one_host_network("default via "@ + ip_text(IpAddr::V4(a)) + rest);
    one_host_network("default via "@ + ip_text(IpAddr::V6(b)) + rest);
}

/// A line that does not begin with `default via ` gives no network.
pub proof fn other_routes_give_no_network(line: Seq<char>)
    requires
        !begins(line, "default via "@),
    ensures
        host_networks_of(seq![line]).len() == 0,
{
    one_host_network(line);
}

/// The networks of one line.
proof fn one_host_network(line: Seq<char>)
    ensures
        host_networks_of(seq![line]) == (match gateway_of(line) {
            Some(IpAddr::V4(a)) => seq![network_text(a)],
            _ => Seq::<Seq<char>>::empty(),
        }),
{
    assert(seq![line].drop_last() =~= Seq::<Seq<char>>::empty());
    assert(seq![line].last() == line);
    reveal_with_fuel(host_networks_of, 2);
}

/// The gateway of a default route reads back.
proof fn gateway_reads_back(a: IpAddr, rest: Seq<char>)
    requires
        rest.len() > 0 ==> is_space(rest[0]),
    ensures
        gateway_of("default via "@ + ip_text(a) + rest) == Some(a),
{
    reveal_strlit("default via ");
    let s = ip_text(a) + rest;
    let line = "default via "@ + ip_text(a) + rest;
    assert(line.take(12) =~= "default via "@);
    assert(line.skip(12) =~= s);
    address_is_word(a);
    ip_reads_back(a);
    word_length_bounds(s);
    let n = ip_text(a).len() as int;
    assert forall|i: int| 0 <= i < n implies !is_space(s[i]) by {
        assert(s[i] == ip_text(a)[i]);
    }
    assert(rest.len() > 0 ==> s[n] == rest[0]);
    assert(word_length(s) == n);
    assert(s.take(n) =~= ip_text(a));
    assert(!is_space(s[0]));
}

/// What was repointed names our own listener, and no other resolver.
pub proof fn repointed_names_the_listener()
    ensures
        lines_of(repointed()).len() == 1,
        nameserver_of(lines_of(repointed())[0]) == Some(listener()),
{
    let a = listener();
    let line = "nameserver "@ + ip_text(a);
    listener_text();
    reveal_strlit("nameserver 127.0.0.1\n");
    reveal_strlit("nameserver ");
    reveal_strlit("127.0.0.1");
    reveal_with_fuel(lined, 2);
    backup_line_reads_back(a);
    assert(seq![line].drop_last() == Seq::<Seq<char>>::empty());
    assert(repointed() =~= lined(seq![line]));
    lines_of_lined(seq![line]);
}

/// A backup gives back what it was written from. Without one the original resolvers are unknown,
/// and the resolv.conf that was repointed is no substitute for one.
pub proof fn recovery_follows_the_backup(upstreams: Seq<IpAddr>)
    requires
        !upstreams.contains(listener()),
        upstreams.len() > 0,
    ensures
        recovered(Some(lined(backup_lines(upstreams)))) == Ok::<Seq<IpAddr>, RecoveryError>(
            upstreams,
        ),
        recovered(Some(repointed())) == Err::<Seq<IpAddr>, RecoveryError>(
            RecoveryError::EmptyBackup,
        ),
        recovered(None) == Err::<Seq<IpAddr>, RecoveryError>(RecoveryError::NoBackup),
{
    backup_reads_back(upstreams);
    repointed_names_no_upstream();
}

/// A sysctl is set exactly if its file holds a one, whatever white space stands around it.
pub proof fn sysctl_is_set_by_a_one(front: Seq<char>, val: Seq<char>, end: Seq<char>)
    requires
        is_blank(front),
        is_blank(end),
        val.len() > 0 ==> !is_space(val[0]) && !is_space(val.last()),
    ensures
        is_set(front + val + end) <==> val == seq!['1'],
{
    white_space_is_trimmed(front, val, end);
    reveal_strlit("1");
    assert("1"@ =~= seq!['1']);
}

} // verus!
