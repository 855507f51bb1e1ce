//! What holds of the text of every address and of every range.

use vstd::prelude::*;

use crate::addr::{
    address_text_is_plain, colons_stand_alone, cut_between, digit_value, embedded_v4, group_of,
    groups_text, hex_groups, is_number, is_v4_mapped, left_groups, longest_run,
    longest_run_bounds, mixed_groups, no_cut, number_has_no_separator, number_nonnegative,
    number_value, octet_of, octet_reads_back, right_groups, v4_groups, v4_has_no_colon, v4_of,
    v4_reads_back, v4_text, v6_groups_of, v6_of, v6_text, zero_run, zero_run_zeros, zeros,
    IpAddr, Ipv4Addr, Ipv6Addr,
};
use crate::net::{v4_net_of, v4_net_text, Ipv4Net};
use crate::text::{
    begins, cut, decimal, hexadecimal, joined, joined_of_pieces, numeral, pieces,
    pieces_of_joined, position_of_at, run_before_at,
};
use crate::text_laws::{decimal_is_canonical, joins_add_up};

verus! {

/// An IPv4 address is written as its four octets in decimal, with dots between them.
pub proof fn v4_text_is_dotted(a: Ipv4Addr)
    ensures
        v4_text(a) == decimal(a.octets[0] as nat) + seq!['.'] + decimal(a.octets[1] as nat) + seq![
            '.',
        ] + decimal(a.octets[2] as nat) + seq!['.'] + decimal(a.octets[3] as nat),
{
    let p = Seq::new(4, |i: int| decimal(a.octets[i] as nat));
    assert(p =~= seq![p[0], p[1], p[2], p[3]]);
    reveal_with_fuel(joined, 5);
    assert(p.drop_last() =~= seq![p[0], p[1], p[2]]);
    assert(p.drop_last().drop_last() =~= seq![p[0], p[1]]);
    assert(p.drop_last().drop_last().drop_last() =~= seq![p[0]]);
}

/// An octet is read from its decimal text alone.
proof fn octet_is_written_in_one_way(s: Seq<char>)
    requires
        octet_of(s) is Some,
    ensures
        s == decimal(octet_of(s)->0 as nat),
{
    number_nonnegative(s, 10);
    decimal_is_canonical(s);
}

/// An IPv4 address is read from its text alone: nothing else reads as it.
pub proof fn v4_is_written_in_one_way(s: Seq<char>)
    ensures
        v4_of(s) matches Some(a) ==> s == v4_text(a),
{
    if let Some(a) = v4_of(s) {
        let p = pieces(s, '.');
        octet_is_written_in_one_way(p[0]);
        octet_is_written_in_one_way(p[1]);
        octet_is_written_in_one_way(p[2]);
        octet_is_written_in_one_way(p[3]);
        joined_of_pieces(s, '.');
        assert(p =~= Seq::new(4, |i: int| decimal(a.octets[i] as nat)));
    }
}

/// `p` is a group of an IPv6 address in text: one to four hexadecimal digits.
pub open spec fn is_group(p: Seq<char>) -> bool {
    &&& 1 <= p.len() <= 4
    &&& forall|i: int|
        0 <= i < p.len() ==> '0' <= #[trigger] p[i] <= '9' || 'a' <= p[i] <= 'f' || 'A' <= p[i]
            <= 'F'
}

/// Hexadecimal digits count in sixteens.
pub proof fn digits_count_in_sixteens(s: Seq<char>, c: char)
    ensures
        '0' <= c <= '9' ==> number_value(s.push(c), 16) == number_value(s, 16) * 16 + (c as int
            - '0' as int),
        'a' <= c <= 'f' ==> number_value(s.push(c), 16) == number_value(s, 16) * 16 + 10 + (c as int
            - 'a' as int),
        'A' <= c <= 'F' ==> number_value(s.push(c), 16) == number_value(s, 16) * 16 + 10 + (c as int
            - 'A' as int),
{
    assert(s.push(c).drop_last() =~= s);
}

/// Four hexadecimal digits write a group.
proof fn group_fits(p: Seq<char>)
    requires
        is_group(p),
    ensures
        0 <= number_value(p, 16) <= 0xffff,
        group_of(p) == Some(number_value(p, 16) as u16),
        !p.contains(':'),
        !p.contains('.'),
{
    assert forall|i: int| 0 <= i < p.len() implies digit_value(#[trigger] p[i], 16) is Some by {
        assert('0' <= p[i] <= '9' || 'a' <= p[i] <= 'f' || 'A' <= p[i] <= 'F');
    }
    assert(is_number(p, 16));
    number_has_no_separator(p, 16);
    number_nonnegative(p, 16);
    let q = p.drop_last();
    let r = q.drop_last();
    let t = r.drop_last();
    reveal_with_fuel(number_value, 5);
    assert(digit_value(p[p.len() - 1], 16)->0 <= 15);
    if q.len() > 0 {
        assert(q[q.len() - 1] == p[p.len() - 2]);
        assert(digit_value(p[p.len() - 2], 16)->0 <= 15);
        if r.len() > 0 {
            assert(r[r.len() - 1] == p[p.len() - 3]);
            assert(digit_value(p[p.len() - 3], 16)->0 <= 15);
            if t.len() > 0 {
                assert(t[t.len() - 1] == p[p.len() - 4]);
                assert(digit_value(p[p.len() - 4], 16)->0 <= 15);
            }
        }
    }
}

/// Every one of `p` is a group.
pub open spec fn are_groups(p: Seq<Seq<char>>) -> bool {
    forall|i: int| 0 <= i < p.len() ==> is_group(#[trigger] p[i])
}

/// The numbers that the groups `p` write.
pub open spec fn group_values(p: Seq<Seq<char>>) -> Seq<u16> {
    Seq::new(p.len(), |i: int| number_value(p[i], 16) as u16)
}

/// Groups with colons between them.
pub open spec fn with_colons(p: Seq<Seq<char>>) -> Seq<char> {
    joined(p, seq![':'])
}

/// Groups with colons between them read as the groups.
proof fn groups_are_read(p: Seq<Seq<char>>)
    requires
        are_groups(p),
        p.len() > 0,
    ensures
        pieces(with_colons(p), ':') == p,
        hex_groups(p) == Some(group_values(p)),
        mixed_groups(p) == Some(group_values(p)),
        with_colons(p).len() > 0,
        with_colons(p).last() != ':',
        forall|j: int|
            0 <= j < with_colons(p).len() - 1 ==> !(#[trigger] with_colons(p)[j] == ':'
                && with_colons(p)[j + 1] == ':'),
{
    assert forall|i: int| 0 <= i < p.len() implies (#[trigger] p[i]).len() > 0 && !p[i].contains(':')
        && group_of(p[i]) == Some(number_value(p[i], 16) as u16) by {
        group_fits(p[i]);
    }
    colons_stand_alone(p);
    pieces_of_joined(p, ':');
    assert(hex_groups(p)->0 =~= group_values(p));
    let last = p.last();
    assert(last == p[p.len() - 1]);
    group_fits(last);
    run_before_at(last, '.', last.len() as int);
    assert(pieces(last, '.').len() == 1);
    assert(v4_of(last) is None);
}

/// Eight groups with colons between them are an IPv6 address, and no other number of groups is.
pub proof fn eight_groups_are_an_address(p: Seq<Seq<char>>)
    requires
        are_groups(p),
        p.len() > 0,
    ensures
        p.len() == 8 ==> v6_of(with_colons(p)) is Some && v6_of(with_colons(p))->0.segments@
            == group_values(p),
        p.len() != 8 ==> v6_of(with_colons(p)) is None,
{
    groups_are_read(p);
    no_cut(with_colons(p));
    if p.len() == 8 {
        assert(v6_of(with_colons(p))->0.segments@ =~= group_values(p));
    }
}

/// Where `::` stands, as many zero groups are meant as make the address eight groups long, and at
/// least one is.
pub proof fn groups_left_out_are_zero(l: Seq<Seq<char>>, r: Seq<Seq<char>>)
    requires
        are_groups(l),
        are_groups(r),
    ensures
        ({
            let s = with_colons(l) + "::"@ + with_colons(r);
            &&& l.len() + r.len() <= 7 ==> v6_of(s) is Some && v6_of(s)->0.segments@
                == group_values(l) + zeros(8 - l.len() - r.len()) + group_values(r)
            &&& l.len() + r.len() > 7 ==> v6_of(s) is None
        }),
{
    let x = with_colons(l);
    let y = with_colons(r);
    if l.len() > 0 {
        groups_are_read(l);
    } else {
        assert(group_values(l) =~= Seq::<u16>::empty());
    }
    if r.len() > 0 {
        groups_are_read(r);
    } else {
        assert(group_values(r) =~= Seq::<u16>::empty());
    }
    assert(left_groups(x) == Some(group_values(l)));
    assert(right_groups(y) == Some(group_values(r)));
    cut_between(x, y);
    let g = group_values(l) + zeros(8 - l.len() - r.len()) + group_values(r);
    if l.len() + r.len() <= 7 {
        assert(v6_of(x + "::"@ + y)->0.segments@ =~= g);
    }
}

/// The last two of the eight groups may be written as an IPv4 address.
pub proof fn last_groups_may_be_an_address(p: Seq<Seq<char>>, a: Ipv4Addr)
    requires
        are_groups(p),
        p.len() == 6,
    ensures
        ({
            let s = with_colons(p) + seq![':'] + v4_text(a);
            &&& v6_of(s) is Some
            &&& v6_of(s)->0.segments@.take(6) == group_values(p)
            &&& v6_of(s)->0.segments[6] == a.octets[0] * 256 + a.octets[1]
            &&& v6_of(s)->0.segments[7] == a.octets[2] * 256 + a.octets[3]
        }),
{
    let t = v4_text(a);
    let q = p.push(t);
    v4_reads_back(a);
    v4_has_no_colon(t);
    if t.len() == 0 {
        assert(pieces(t, '.').len() == 1);
    }
    assert forall|i: int| 0 <= i < q.len() implies (#[trigger] q[i]).len() > 0 && !q[i].contains(
        ':',
    ) by {
        if i < 6 {
            assert(q[i] == p[i]);
            group_fits(p[i]);
        }
    }
    colons_stand_alone(q);
    pieces_of_joined(q, ':');
    no_cut(joined(q, seq![':']));
    assert(q.drop_last() =~= p);
    joins_add_up(p, seq![t], t, seq![':']);
    assert(q =~= p + seq![t]);
    groups_are_read(p);
    let s = with_colons(p) + seq![':'] + t;
    assert(s == joined(q, seq![':']));
    let g = group_values(p) + v4_groups(a);
    assert(mixed_groups(q) == Some(g));
    assert(v6_groups_of(s) == Some(g));
    assert(v6_of(s)->0.segments@ =~= g);
    assert(g.take(6) =~= group_values(p));
}

/// `n` zero groups stand in a row from `i` on.
pub open spec fn zeros_at(g: Seq<u16>, i: int, n: int) -> bool {
    &&& 0 <= i
    &&& 0 <= n
    &&& i + n <= g.len()
    &&& forall|j: int| i <= j < i + n ==> g[j] == 0
}

/// No zero groups in a row are more than those counted.
proof fn zero_run_is_longest(g: Seq<u16>, i: int, n: int)
    requires
        zeros_at(g, i, n),
    ensures
        n <= zero_run(g, i),
    decreases n,
{
    if n > 0 {
        assert(zeros_at(g, i + 1, n - 1));
        zero_run_is_longest(g, i + 1, n - 1);
        assert(g[i] == 0);
    } else {
        zero_run_zeros(g, i);
    }
}

/// The chosen run is the first of the longest.
proof fn longest_run_is_longest(g: Seq<u16>, k: int, j: int)
    requires
        0 <= j <= k,
    ensures
        zero_run(g, j) <= zero_run(g, longest_run(g, k)),
        j < longest_run(g, k) ==> zero_run(g, j) < zero_run(g, longest_run(g, k)),
    decreases k,
{
    if k > 0 {
        longest_run_bounds(g, k - 1);
        if j < k {
            longest_run_is_longest(g, k - 1, j);
        }
    }
}

/// The longest run of two or more zero groups is left out of the text of an IPv6 address, and of
/// runs that are equally long the first. Nothing is left out where there is none.
pub proof fn longest_zeros_are_left_out(a: Ipv6Addr, i: int, n: int)
    requires
        !is_v4_mapped(a),
        n >= 1,
        zeros_at(a.segments@, i, n),
        forall|j: int, m: int| #[trigger]
            zeros_at(a.segments@, j, m) ==> m <= n && (j < i ==> m < n),
    ensures
        n >= 2 ==> v6_text(a) == groups_text(a.segments@.take(i)) + "::"@ + groups_text(
            a.segments@.skip(i + n),
        ),
        n == 1 ==> v6_text(a) == groups_text(a.segments@),
{
    let g = a.segments@;
    let k = longest_run(g, 7);
    let m = zero_run(g, k);
    longest_run_bounds(g, 7);
    zero_run_zeros(g, k);
    assert(zeros_at(g, k, m));
    zero_run_is_longest(g, i, n);
    longest_run_is_longest(g, 7, i);
    zero_run_zeros(g, i);
    assert(zeros_at(g, i, zero_run(g, i)));
}

/// An IPv6 address without zero groups is written group by group.
pub proof fn groups_are_written_in_full(a: Ipv6Addr)
    requires
        forall|j: int| 0 <= j < 8 ==> #[trigger] a.segments@[j] != 0,
    ensures
        v6_text(a) == groups_text(a.segments@),
{
    let g = a.segments@;
    let k = longest_run(g, 7);
    longest_run_bounds(g, 7);
    assert(g[k] != 0);
    if is_v4_mapped(a) {
        assert(g.take(5)[0] == zeros(5)[0]);
        assert(g[0] == 0);
    }
}

/// Groups are written in hexadecimal with colons between them.
pub proof fn groups_are_written_one_by_one(g: Seq<u16>, h: Seq<u16>, x: u16)
    ensures
        groups_text(Seq::empty()) == Seq::<char>::empty(),
        groups_text(seq![x]) == hexadecimal(x as nat),
        g.len() > 0 && h.len() > 0 ==> groups_text(g + h) == groups_text(g) + seq![':']
            + groups_text(h),
{
    let p = Seq::new(g.len(), |i: int| hexadecimal(g[i] as nat));
    let q = Seq::new(h.len(), |i: int| hexadecimal(h[i] as nat));
    let t = hexadecimal(x as nat);
    joins_add_up(p, q, t, seq![':']);
    assert(Seq::new((g + h).len(), |i: int| hexadecimal((g + h)[i] as nat)) =~= p + q);
    assert(Seq::new(seq![x].len(), |i: int| hexadecimal(seq![x][i] as nat)) =~= seq![t]);
    let none = Seq::<u16>::empty();
    assert(Seq::new(none.len(), |i: int| hexadecimal(none[i] as nat)) =~= Seq::<Seq<char>>::empty());
}

/// An IPv6 address whose first 80 bits are zero and whose next 16 are one is written with the
/// IPv4 address that its last 32 bits are.
pub proof fn mapped_addresses_are_written_as_such(a: Ipv4Addr, b: Ipv6Addr)
    requires
        b.segments@ == seq![
            0u16,
            0u16,
            0u16,
            0u16,
            0u16,
            0xffffu16,
            (a.octets[0] * 256 + a.octets[1]) as u16,
            (a.octets[2] * 256 + a.octets[3]) as u16,
        ],
    ensures
        v6_text(b) == "::ffff:"@ + v4_text(a),
{
    assert(b.segments@.take(5) =~= zeros(5));
    assert(b.segments[5] == b.segments@[5]);
    assert(b.segments[6] == b.segments@[6]);
    assert(b.segments[7] == b.segments@[7]);
    assert(embedded_v4(b).octets =~= a.octets);
}

/// A range reads back from its text.
pub proof fn v4_net_reads_back(n: Ipv4Net)
    requires
        n.valid(),
    ensures
        v4_net_of(v4_net_text(n)) == Some(n),
{
    let a = n.addr;
    let host = v4_text(a);
    let d = decimal(n.prefix_len as nat);
    let s = v4_net_text(n);
    let k = host.len() as int;
    let p = Seq::new(4, |i: int| decimal(a.octets[i] as nat));
    assert forall|i: int| 0 <= i < p.len() implies !(#[trigger] p[i]).contains('.') by {
        octet_reads_back(a.octets[i]);
    }
    pieces_of_joined(p, '.');
    octet_reads_back(a.octets[0]);
    octet_reads_back(a.octets[1]);
    octet_reads_back(a.octets[2]);
    octet_reads_back(a.octets[3]);
    octet_reads_back(n.prefix_len);
    reveal_with_fuel(numeral, 3);
    assert(!host.contains('/')) by {
        address_text_is_plain(IpAddr::V4(a));
    }
    reveal_strlit("/");
    assert(s.skip(k).take(1) =~= "/"@);
    assert forall|j: int| 0 <= j < k implies !begins(#[trigger] s.skip(j), "/"@) by {
        if begins(s.skip(j), "/"@) {
            assert(s.skip(j).take(1)[0] == s[j]);
            assert(s[j] == host[j]);
            assert(host.contains(host[j]));
        }
    }
    position_of_at(s, "/"@, k);
    assert(s.take(k) =~= host);
    assert(s.skip(k + 1) =~= d);
    assert(cut(s, "/"@) == Some((host, d)));
    assert(v4_net_of(s)->0.addr.octets =~= a.octets);
}

} // verus!
