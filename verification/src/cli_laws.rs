//! What holds of every command line.

use vstd::prelude::*;

use crate::addr::{
    address_text_is_plain, bracketed_ip_of, digit_value, ip_reads_back, ip_text, is_number,
    mixed_groups, number_has_no_separator, numeral_reads_back, octet_of, scoped_ip_of,
    socket_ip_of, v4_has_no_colon, v4_of, v4_reads_back, v4_text, v6_of, v6_reads_back, v6_text,
    IpAddr, Ipv4Addr, Ipv6Addr,
};
use crate::cli::upstream_of;
use crate::text::{
    begins, cut, decimal, joined_holds, joined_of_pieces, pieces, position_of, position_of_at,
    position_of_first, run_before, run_before_is_first, stripped_end, stripped_start,
};

verus! {

/// Nothing is cut at a text whose first character does not occur.
proof fn cut_absent(s: Seq<char>, p: Seq<char>)
    requires
        p.len() > 0,
        !s.contains(p[0]),
    ensures
        cut(s, p) is None,
{
    position_of_first(s, p);
    if let Some(i) = position_of(s, p) {
        assert(s.subrange(i, i + p.len())[0] == s[i]);
    }
}

/// A text is cut at a character where that first occurs.
proof fn cut_at_char(s: Seq<char>, c: char, n: int)
    requires
        0 <= n < s.len(),
        s[n] == c,
        forall|j: int| 0 <= j < n ==> s[j] != c,
    ensures
        cut(s, seq![c]) == Some((s.take(n), s.skip(n + 1))),
{
    assert(s.skip(n).take(1) =~= seq![c]);
    assert forall|j: int| 0 <= j < n implies !begins(#[trigger] s.skip(j), seq![c]) by {
        if begins(s.skip(j), seq![c]) {
            assert(s.skip(j).take(1)[0] == c);
        }
    }
    position_of_at(s, seq![c], n);
}

/// A text that reads as an IPv4 address is made of digits and dots.
proof fn v4_characters(s: Seq<char>, i: int)
    requires
        v4_of(s) is Some,
        0 <= i < s.len(),
    ensures
        digit_value(s[i], 10) is Some || s[i] == '.',
{
    let p = pieces(s, '.');
    joined_of_pieces(s, '.');
    joined_holds(p, '.', i);
    if s[i] != '.' {
        let k = choose|k: int| 0 <= k < p.len() && (#[trigger] p[k]).contains(s[i]);
        assert(k == 0 || k == 1 || k == 2 || k == 3);
        assert(octet_of(p[k]) is Some);
        let j = choose|j: int| 0 <= j < p[k].len() && p[k][j] == s[i];
        assert(digit_value(p[k][j], 10) is Some);
    }
}

/// A text that reads as an IPv6 address has a second colon after its first.
proof fn v6_has_two_colons(s: Seq<char>)
    requires
        v6_of(s) is Some,
    ensures
        cut(s, ":"@) matches Some((_, rest)) && rest.contains(':'),
{
    reveal_strlit(":");
    reveal_strlit("::");
    assert(":"@ =~= seq![':']);
    let n = run_before(s, ':');
    run_before_is_first(s, ':');
    position_of_first(s, "::"@);
    match position_of(s, "::"@) {
        Some(i) => {
            assert(s.subrange(i, i + 2)[0] == ':' && s.subrange(i, i + 2)[1] == ':');
            assert(s[i] == ':' && s[i + 1] == ':');
            assert(n <= i);
            cut_at_char(s, ':', n);
            assert(s.skip(n + 1)[i - n] == ':');
        },
        None => {
            let p = pieces(s, ':');
            assert(mixed_groups(p) is Some);
            assert(p.len() >= 7);
            cut_at_char(s, ':', n);
            let rest = s.skip(n + 1);
            let m = run_before(rest, ':');
            run_before_is_first(rest, ':');
            assert(p =~= seq![s.take(n)] + pieces(rest, ':'));
            assert(m < rest.len());
            assert(rest[m] == ':');
        },
    }
}

/// The text of an address holds none of the characters that socket addresses add to it.
proof fn address_text_is_bare(a: IpAddr)
    ensures
        ip_text(a).len() > 0,
        !ip_text(a).contains('['),
        !ip_text(a).contains(']'),
        !ip_text(a).contains('%'),
{
    address_text_is_plain(a);
    let s = ip_text(a);
    assert forall|i: int| 0 <= i < s.len() implies s[i] != '[' && s[i] != ']' && s[i] != '%' by {
        assert(digit_value(s[i], 16) is Some || s[i] == '.' || s[i] == ':');
    }
}

/// The text of an address is no socket address.
proof fn address_is_no_socket_address(a: IpAddr)
    ensures
        socket_ip_of(ip_text(a)) is None,
{
    let s = ip_text(a);
    address_text_is_bare(a);
    reveal_strlit("]:");
    cut_absent(s, "]:"@);
    match a {
        IpAddr::V4(b) => {
            v4_reads_back(b);
            reveal_strlit(":");
            if s.contains(':') {
                let i = choose|i: int| 0 <= i < s.len() && s[i] == ':';
                v4_characters(s, i);
            }
            cut_absent(s, ":"@);
        },
        IpAddr::V6(b) => {
            v6_reads_back(b);
            v6_has_two_colons(s);
            if let Some((_, rest)) = cut(s, ":"@) {
                let i = choose|i: int| 0 <= i < rest.len() && rest[i] == ':';
                assert(digit_value(rest[i], 10) is None);
            }
        },
    }
}

/// Brackets around a text without brackets are stripped.
proof fn brackets_are_stripped(s: Seq<char>)
    requires
        s.len() > 0,
        !s.contains('['),
        !s.contains(']'),
    ensures
        stripped_end(stripped_start(s, '['), ']') == s,
        stripped_end(stripped_start(seq!['['] + s + seq![']'], '['), ']') == s,
{
    assert(s.contains(s[0]));
    assert(s.contains(s.last()));
    let t = seq!['['] + s + seq![']'];
    assert(t.skip(1) =~= s + seq![']']);
    assert(t.skip(1).drop_last() =~= s);
    reveal_with_fuel(stripped_start, 2);
    reveal_with_fuel(stripped_end, 2);
}

/// An upstream can be given as an address, and as one in brackets.
pub proof fn upstream_without_port(a: IpAddr)
    ensures
        upstream_of(ip_text(a)) == Some(a),
        upstream_of(seq!['['] + ip_text(a) + seq![']']) == Some(a),
{
    let s = ip_text(a);
    let t = seq!['['] + s + seq![']'];
    ip_reads_back(a);
    address_text_is_bare(a);
    address_is_no_socket_address(a);
    brackets_are_stripped(s);
    bracket_is_no_v4(t);
    reveal_strlit("]:");
    position_of_first(t, "]:"@);
    if let Some(i) = position_of(t, "]:"@) {
        assert(t.subrange(i, i + 2)[0] == t[i]);
        assert(1 <= i <= s.len());
        assert(t[i] == s[i - 1]);
        assert(s.contains(s[i - 1]));
    }
    reveal_strlit(":");
}

/// What stands before the first colon of a text in brackets is no IPv4 address.
proof fn bracket_is_no_v4(t: Seq<char>)
    requires
        t.len() > 0,
        t[0] == '[',
    ensures
        cut(t, ":"@) matches Some((host, _)) ==> v4_of(host) is None,
{
    reveal_strlit(":");
    position_of_first(t, ":"@);
    if let Some(i) = position_of(t, ":"@) {
        let host = t.take(i);
        assert(t.subrange(i, i + 1)[0] == t[i]);
        if v4_of(host) is Some {
            if i == 0 {
                assert(t[0] == ':');
            } else {
                assert(host[0] == '[');
                v4_characters(host, 0);
            }
        }
    }
}

/// The port of an IPv4 upstream is ignored.
pub proof fn upstream_v4_with_port(a: Ipv4Addr, port: u16)
    ensures
        upstream_of(v4_text(a) + seq![':'] + decimal(port as nat)) == Some(IpAddr::V4(a)),
{
    let host = v4_text(a);
    let d = decimal(port as nat);
    let s = host + seq![':'] + d;
    let n = host.len() as int;
    v4_reads_back(a);
    numeral_reads_back(port as nat, 10);
    assert forall|j: int| 0 <= j < n implies s[j] != ':' by {
        assert(s[j] == host[j]);
        v4_characters(host, j);
    }
    cut_at_char(s, ':', n);
    reveal_strlit(":");
    assert(":"@ =~= seq![':']);
    assert(s.take(n) =~= host);
    assert(s.skip(n + 1) =~= d);
}

/// The port of an IPv6 upstream is ignored.
pub proof fn upstream_v6_with_port(a: Ipv6Addr, port: u16)
    ensures
        upstream_of(seq!['['] + v6_text(a) + seq![']', ':'] + decimal(port as nat)) == Some(
            IpAddr::V6(a),
        ),
{
    let host = v6_text(a);
    let d = decimal(port as nat);
    v6_reads_back(a);
    address_text_is_bare(IpAddr::V6(a));
    numeral_reads_back(port as nat, 10);
    bracket_is_no_v4(seq!['['] + host + seq![']', ':'] + d);
    cut_behind_brackets(host, d);
    assert((seq!['['] + host).skip(1) =~= host);
    reveal_strlit("%");
    cut_absent(host, "%"@);
}

/// A text in brackets is cut behind them.
proof fn cut_behind_brackets(inner: Seq<char>, d: Seq<char>)
    requires
        !inner.contains(']'),
    ensures
        cut(seq!['['] + inner + seq![']', ':'] + d, "]:"@) == Some((seq!['['] + inner, d)),
{
    let s = seq!['['] + inner + seq![']', ':'] + d;
    let n = inner.len() as int + 1;
    reveal_strlit("]:");
    assert(s.skip(n).take(2) =~= "]:"@);
    assert forall|j: int| 0 <= j < n implies !begins(#[trigger] s.skip(j), "]:"@) by {
        if begins(s.skip(j), "]:"@) {
            assert(s.skip(j).take(2)[0] == ']');
            if j > 0 {
                assert(s[j] == inner[j - 1]);
                assert(inner.contains(inner[j - 1]));
            }
        }
    }
    position_of_at(s, "]:"@, n);
    assert(s.take(n) =~= seq!['['] + inner);
    assert(s.skip(n + 2) =~= d);
}

/// A scope behind an IPv6 address is left out.
proof fn scope_is_left_out(a: Ipv6Addr, scope: u32)
    ensures
        scoped_ip_of(v6_text(a) + seq!['%'] + decimal(scope as nat)) == Some(IpAddr::V6(a)),
        !(v6_text(a) + seq!['%'] + decimal(scope as nat)).contains(']'),
{
    let host = v6_text(a);
    let mark = decimal(scope as nat);
    let scoped = host + seq!['%'] + mark;
    let m = host.len() as int;
    v6_reads_back(a);
    address_text_is_bare(IpAddr::V6(a));
    numeral_reads_back(scope as nat, 10);
    assert forall|j: int| 0 <= j < m implies scoped[j] != '%' by {
        assert(scoped[j] == host[j]);
        assert(host.contains(host[j]));
    }
    cut_at_char(scoped, '%', m);
    reveal_strlit("%");
    assert("%"@ =~= seq!['%']);
    assert(scoped.take(m) =~= host);
    assert(scoped.skip(m + 1) =~= mark);
    if scoped.contains(']') {
        let j = choose|j: int| 0 <= j < scoped.len() && scoped[j] == ']';
        if j < m {
            assert(host.contains(host[j]));
        } else if j > m {
            assert(digit_value(mark[j - m - 1], 10) is Some);
        }
    }
}

/// An IPv6 upstream may name its scope, which is ignored too.
pub proof fn upstream_v6_with_scope(a: Ipv6Addr, scope: u32, port: u16)
    ensures
        upstream_of(
            seq!['['] + (v6_text(a) + seq!['%'] + decimal(scope as nat)) + seq![']', ':'] + decimal(
                port as nat,
            ),
        ) == Some(IpAddr::V6(a)),
{
    let inner = v6_text(a) + seq!['%'] + decimal(scope as nat);
    let d = decimal(port as nat);
    scope_is_left_out(a, scope);
    numeral_reads_back(port as nat, 10);
    bracket_is_no_v4(seq!['['] + inner + seq![']', ':'] + d);
    cut_behind_brackets(inner, d);
    assert((seq!['['] + inner).skip(1) =~= inner);
}

/// The port of an IPv4 upstream must be one: a number that is none makes the value invalid.
pub proof fn upstream_port_must_fit(a: Ipv4Addr, port: nat)
    requires
        port > 65535,
    ensures
        upstream_of(v4_text(a) + seq![':'] + decimal(port)) is None,
{
    let host = v4_text(a);
    let d = decimal(port);
    let s = host + seq![':'] + d;
    let n = host.len() as int;
    v4_reads_back(a);
    numeral_reads_back(port, 10);
    number_has_no_separator(d, 10);
    address_text_is_bare(IpAddr::V4(a));
    assert forall|j: int| 0 <= j < n implies s[j] != ':' by {
        assert(s[j] == host[j]);
        v4_characters(host, j);
    }
    cut_at_char(s, ':', n);
    reveal_strlit(":");
    assert(":"@ =~= seq![':']);
    assert(s.take(n) =~= host);
    assert(s.skip(n + 1) =~= d);
    assert(!s.contains('[') && !s.contains(']')) by {
        if s.contains('[') {
            let i = choose|i: int| 0 <= i < s.len() && s[i] == '[';
            no_bracket_at(host, d, i);
        }
        if s.contains(']') {
            let i = choose|i: int| 0 <= i < s.len() && s[i] == ']';
            no_bracket_at(host, d, i);
        }
    }
    brackets_are_stripped(s);
    assert(v4_of(s) is None) by {
        if v4_of(s) is Some {
            v4_has_no_colon(s);
            assert(s[n] == ':');
        }
    }
    assert(v6_of(s) is None) by {
        if v6_of(s) is Some {
            v6_has_two_colons(s);
        }
    }
    assert(bracketed_ip_of(s) is None) by {
        reveal_strlit("]:");
        cut_absent(s, "]:"@);
    }
}

/// Neither an address nor a number holds a bracket.
proof fn no_bracket_at(host: Seq<char>, d: Seq<char>, i: int)
    requires
        v4_of(host) is Some,
        is_number(d, 10),
        0 <= i < host.len() + 1 + d.len(),
    ensures
        (host + seq![':'] + d)[i] != '[',
        (host + seq![':'] + d)[i] != ']',
{
    if i < host.len() {
        v4_characters(host, i);
    } else if i > host.len() {
        assert(digit_value(d[i - host.len() - 1], 10) is Some);
    }
}

} // verus!
