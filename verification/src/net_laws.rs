//! What holds of every range.

use vstd::arithmetic::div_mod::{lemma_div_denominator, lemma_hoist_over_denominator};
use vstd::arithmetic::power2::{
    lemma2_to64, lemma_pow2_adds, lemma_pow2_pos, lemma_pow2_unfold, pow2,
};
use vstd::prelude::*;

use crate::addr::{Ipv4Addr, Ipv6Addr};
use crate::net::{
    groups_number, v4_covered, v4_disjoint, v4_number, v6_covered, v6_disjoint, v6_number,
    Ipv4Net, Ipv6Net,
};

verus! {

/// Bit `i` of an IPv4 address, counted from the front.
pub open spec fn v4_bit(a: Ipv4Addr, i: int) -> int {
    a.octets[i / 8] as int / pow2((7 - i % 8) as nat) as int % 2
}

/// Bit `i` of an IPv6 address, counted from the front.
pub open spec fn v6_bit(a: Ipv6Addr, i: int) -> int {
    a.segments[i / 16] as int / pow2((15 - i % 16) as nat) as int % 2
}

/// What stands in front of the last `w` bits of a number leaves each of them alone.
proof fn low_bits_are_kept(q: int, o: int, m: nat, w: nat)
    requires
        m < w,
    ensures
        (pow2(w) * q + o) / pow2(m) as int % 2 == o / pow2(m) as int % 2,
{
    let p = pow2(m) as int;
    let r = pow2((w - m - 1) as nat) as int;
    lemma_pow2_pos(m);
    lemma_pow2_adds(m, (w - m) as nat);
    lemma_pow2_unfold((w - m) as nat);
    assert(pow2(w) * q == (2 * (r * q)) * p) by (nonlinear_arith)
        requires
            pow2(w) as int == p * (2 * r),
    ;
    lemma_hoist_over_denominator(o, 2 * (r * q), pow2(m));
}

/// Two numbers agree up to a bit exactly if they agree up to the bit before it and in that bit.
proof fn one_more_bit(x: int, y: int, k: nat)
    requires
        0 <= x,
        0 <= y,
    ensures
        x / pow2(k) as int == y / pow2(k) as int <==> x / pow2(k + 1) as int == y / pow2(
            k + 1,
        ) as int && x / pow2(k) as int % 2 == y / pow2(k) as int % 2,
{
    lemma_pow2_pos(k);
    lemma_pow2_unfold(k + 1);
    let p = pow2(k) as int;
    assert(pow2(k + 1) as int == p * 2);
    lemma_div_denominator(x, p, 2);
    lemma_div_denominator(y, p, 2);
}

/// A bit of an IPv4 address is a bit of its number.
proof fn v4_bit_of_number(a: Ipv4Addr, i: int)
    requires
        0 <= i < 32,
    ensures
        v4_number(a) >= 0,
        v4_number(a) / pow2((31 - i) as nat) as int % 2 == v4_bit(a, i),
{
    let x = v4_number(a);
    let j = i / 8;
    let m = (7 - i % 8) as nat;
    let e = (8 * (3 - j)) as nat;
    lemma2_to64();
    lemma_pow2_adds(e, m);
    lemma_pow2_pos(e);
    lemma_pow2_pos(m);
    assert((31 - i) as nat == e + m);
    lemma_div_denominator(x, pow2(e) as int, pow2(m) as int);
    let o0 = a.octets[0] as int;
    let o1 = a.octets[1] as int;
    let o2 = a.octets[2] as int;
    let o3 = a.octets[3] as int;
    if j == 0 {
        assert(x / pow2(24) as int == o0);
        low_bits_are_kept(0, o0, m, 8);
    } else if j == 1 {
        assert(x / pow2(16) as int == 256 * o0 + o1);
        low_bits_are_kept(o0, o1, m, 8);
    } else if j == 2 {
        assert(x / pow2(8) as int == 256 * (o0 * 256 + o1) + o2);
        low_bits_are_kept(o0 * 256 + o1, o2, m, 8);
    } else {
        assert(x / pow2(0) as int == 256 * ((o0 * 256 + o1) * 256 + o2) + o3);
        low_bits_are_kept((o0 * 256 + o1) * 256 + o2, o3, m, 8);
    }
}

/// The first groups of an IPv6 address are the first bits of its number.
proof fn first_groups_of_number(g: Seq<u16>, k: int)
    requires
        g.len() == 8,
        0 <= k <= 8,
    ensures
        groups_number(g, 8) >= 0,
        groups_number(g, k) >= 0,
        groups_number(g, 8) / pow2((16 * (8 - k)) as nat) as int == groups_number(g, k),
    decreases 8 - k,
{
    lemma2_to64();
    reveal_with_fuel(groups_number, 9);
    if k < 8 {
        first_groups_of_number(g, k + 1);
        let e = (16 * (7 - k)) as nat;
        lemma_pow2_adds(e, 16);
        lemma_pow2_pos(e);
        assert((16 * (8 - k)) as nat == e + 16);
        lemma_div_denominator(groups_number(g, 8), pow2(e) as int, 65536);
        assert(groups_number(g, k + 1) == groups_number(g, k) * 65536 + g[k]);
        assert(groups_number(g, k + 1) / 65536 == groups_number(g, k));
        assert(pow2((16 * (8 - k)) as nat) as int == pow2(e) as int * 65536);
    } else {
        assert(pow2((16 * (8 - k)) as nat) == 1);
    }
}

/// A bit of an IPv6 address is a bit of its number.
proof fn v6_bit_of_number(a: Ipv6Addr, i: int)
    requires
        0 <= i < 128,
    ensures
        v6_number(a) >= 0,
        v6_number(a) / pow2((127 - i) as nat) as int % 2 == v6_bit(a, i),
{
    let g = a.segments@;
    let x = v6_number(a);
    let j = i / 16;
    let m = (15 - i % 16) as nat;
    let e = (16 * (7 - j)) as nat;
    first_groups_of_number(g, j + 1);
    first_groups_of_number(g, j);
    lemma_pow2_adds(e, m);
    lemma_pow2_pos(e);
    lemma_pow2_pos(m);
    assert((127 - i) as nat == e + m);
    lemma_div_denominator(x, pow2(e) as int, pow2(m) as int);
    assert(groups_number(g, j + 1) == 65536 * groups_number(g, j) + g[j]);
    low_bits_are_kept(groups_number(g, j), g[j] as int, m, 16);
    lemma2_to64();
    assert(g[j] == a.segments[j]);
}

/// An IPv4 range holds the addresses that share its first bits: one without a prefix holds every
/// address, and one more bit in the prefix leaves those that have this bit too.
pub proof fn v4_range_goes_by_its_first_bits(n: Ipv4Net, longer: Ipv4Net, a: Ipv4Addr)
    requires
        n.prefix_len < 32,
        longer.prefix_len == n.prefix_len + 1,
        longer.addr == n.addr,
    ensures
        n.prefix_len == 0 ==> n.holds(a),
        longer.holds(a) <==> n.holds(a) && v4_bit(a, n.prefix_len as int) == v4_bit(
            n.addr,
            n.prefix_len as int,
        ),
{
    let i = n.prefix_len as int;
    v4_bit_of_number(a, i);
    v4_bit_of_number(n.addr, i);
    one_more_bit(v4_number(a), v4_number(n.addr), (31 - i) as nat);
    assert((31 - i) as nat + 1 == (32 - i) as nat);
    lemma2_to64();
}

/// An IPv6 range holds the addresses that share its first bits: one without a prefix holds every
/// address, and one more bit in the prefix leaves those that have this bit too.
pub proof fn v6_range_goes_by_its_first_bits(n: Ipv6Net, longer: Ipv6Net, a: Ipv6Addr)
    requires
        n.prefix_len < 128,
        longer.prefix_len == n.prefix_len + 1,
        longer.addr == n.addr,
    ensures
        n.prefix_len == 0 ==> n.holds(a),
        longer.holds(a) <==> n.holds(a) && v6_bit(a, n.prefix_len as int) == v6_bit(
            n.addr,
            n.prefix_len as int,
        ),
{
    let i = n.prefix_len as int;
    v6_bit_of_number(a, i);
    v6_bit_of_number(n.addr, i);
    one_more_bit(v6_number(a), v6_number(n.addr), (127 - i) as nat);
    assert((127 - i) as nat + 1 == (128 - i) as nat);
    first_groups_of_number(a.segments@, 0);
    first_groups_of_number(n.addr.segments@, 0);
}

/// Ranges cover what each of them holds, and nothing else.
pub proof fn v4_ranges_cover_together(
    x: Seq<Ipv4Net>,
    y: Seq<Ipv4Net>,
    n: Ipv4Net,
    a: Ipv4Addr,
)
    ensures
        !v4_covered(Seq::empty(), a),
        v4_covered(seq![n], a) == n.holds(a),
        v4_covered(x + y, a) == (v4_covered(x, a) || v4_covered(y, a)),
{
    if n.holds(a) {
        assert(seq![n][0].holds(a));
    }
    if v4_covered(x, a) {
        let i = choose|i: int| 0 <= i < x.len() && (#[trigger] x[i]).holds(a);
        assert((x + y)[i].holds(a));
    }
    if v4_covered(y, a) {
        let i = choose|i: int| 0 <= i < y.len() && (#[trigger] y[i]).holds(a);
        assert((x + y)[x.len() + i].holds(a));
    }
    if v4_covered(x + y, a) {
        let i = choose|i: int| 0 <= i < (x + y).len() && (#[trigger] (x + y)[i]).holds(a);
        if i < x.len() {
            assert(x[i].holds(a));
        } else {
            assert(y[i - x.len()].holds(a));
        }
    }
}

/// Ranges cover what each of them holds, and nothing else.
pub proof fn v6_ranges_cover_together(
    x: Seq<Ipv6Net>,
    y: Seq<Ipv6Net>,
    n: Ipv6Net,
    a: Ipv6Addr,
)
    ensures
        !v6_covered(Seq::empty(), a),
        v6_covered(seq![n], a) == n.holds(a),
        v6_covered(x + y, a) == (v6_covered(x, a) || v6_covered(y, a)),
{
    if n.holds(a) {
        assert(seq![n][0].holds(a));
    }
    if v6_covered(x, a) {
        let i = choose|i: int| 0 <= i < x.len() && (#[trigger] x[i]).holds(a);
        assert((x + y)[i].holds(a));
    }
    if v6_covered(y, a) {
        let i = choose|i: int| 0 <= i < y.len() && (#[trigger] y[i]).holds(a);
        assert((x + y)[x.len() + i].holds(a));
    }
    if v6_covered(x + y, a) {
        let i = choose|i: int| 0 <= i < (x + y).len() && (#[trigger] (x + y)[i]).holds(a);
        if i < x.len() {
            assert(x[i].holds(a));
        } else {
            assert(y[i - x.len()].holds(a));
        }
    }
}

/// Of ranges that are disjoint, at most one holds an address, so that none is needed twice.
pub proof fn disjoint_ranges_share_no_address(
    x: Seq<Ipv4Net>,
    y: Seq<Ipv6Net>,
    i: int,
    j: int,
    a: Ipv4Addr,
    b: Ipv6Addr,
)
    ensures
        v4_disjoint(x) && 0 <= i < x.len() && 0 <= j < x.len() && x[i].holds(a) && x[j].holds(a)
            ==> i == j,
        v6_disjoint(y) && 0 <= i < y.len() && 0 <= j < y.len() && y[i].holds(b) && y[j].holds(b)
            ==> i == j,
{
    if i < j {
        assert(0 <= i < j < x.len() && v4_disjoint(x) ==> !(x[i].holds(a) && x[j].holds(a)));
        assert(0 <= i < j < y.len() && v6_disjoint(y) ==> !(y[i].holds(b) && y[j].holds(b)));
    }
    if j < i {
        assert(0 <= j < i < x.len() && v4_disjoint(x) ==> !(x[j].holds(a) && x[i].holds(a)));
        assert(0 <= j < i < y.len() && v6_disjoint(y) ==> !(y[j].holds(b) && y[i].holds(b)));
    }
}

} // verus!
