//! IP addresses and their text.
//!
//! IPv4 addresses are four decimal octets without leading zeros. IPv6 addresses are eight
//! hexadecimal groups, in which one run of zero groups may be left out as `::` and the last
//! two groups may be written as an IPv4 address.

use vstd::prelude::*;
use vstd::slice::slice_subrange;

use crate::text::{
    begins, cut, decimal, digit, hexadecimal, joined, joined_front, joined_holds,
    joined_of_pieces, numeral, pieces, pieces_of_joined, position_of, position_of_at,
    position_of_first, push_all, push_str, run_before_at, split, split_once, to_numeral, views,
};

verus! {

/// An IPv4 address.
#[derive(Clone, Copy, Debug, PartialEq, Eq)]
pub struct Ipv4Addr {
    pub octets: [u8; 4],
}

/// An IPv6 address.
#[derive(Clone, Copy, Debug, PartialEq, Eq)]
pub struct Ipv6Addr {
    pub segments: [u16; 8],
}

/// An address of either family.
#[derive(Clone, Copy, Debug, PartialEq, Eq)]
pub enum IpAddr {
    V4(Ipv4Addr),
    V6(Ipv6Addr),
}

/// The value of a digit in base `base`, which is ten or sixteen.
pub open spec fn digit_value(c: char, base: int) -> Option<int> {
    if '0' <= c <= '9' {
        Some(c as int - 48)
    } else if base == 16 && 'a' <= c <= 'f' {
        Some(c as int - 87)
    } else if base == 16 && 'A' <= c <= 'F' {
        Some(c as int - 55)
    } else {
        None
    }
}

/// `s` is one or more digits.
pub open spec fn is_number(s: Seq<char>, base: int) -> bool {
    s.len() > 0 && forall|i: int| 0 <= i < s.len() ==> digit_value(#[trigger] s[i], base) is Some
}

/// The number that the digits `s` write.
pub open spec fn number_value(s: Seq<char>, base: int) -> int
    decreases s.len(),
{
    if s.len() == 0 {
        0
    } else {
        number_value(s.drop_last(), base) * base + digit_value(s.last(), base)->0
    }
}

/// The octet that `s` writes in decimal.
pub open spec fn octet_of(s: Seq<char>) -> Option<u8> {
    if is_number(s, 10) && s.len() <= 3 && (s.len() > 1 ==> s[0] != '0') && number_value(s, 10)
        <= 255 {
        Some(number_value(s, 10) as u8)
    } else {
        None
    }
}

/// The IPv4 address that `s` writes.
pub open spec fn v4_of(s: Seq<char>) -> Option<Ipv4Addr> {
    let p = pieces(s, '.');
    if p.len() == 4 && octet_of(p[0]) is Some && octet_of(p[1]) is Some && octet_of(p[2]) is Some
        && octet_of(p[3]) is Some {
        Some(
            Ipv4Addr {
                octets: [
                    octet_of(p[0])->0,
                    octet_of(p[1])->0,
                    octet_of(p[2])->0,
                    octet_of(p[3])->0,
                ],
            },
        )
    } else {
        None
    }
}

/// The group that `s` writes in hexadecimal.
pub open spec fn group_of(s: Seq<char>) -> Option<u16> {
    if is_number(s, 16) && s.len() <= 4 {
        Some(number_value(s, 16) as u16)
    } else {
        None
    }
}

/// The groups that the pieces `p` write, one each.
pub open spec fn hex_groups(p: Seq<Seq<char>>) -> Option<Seq<u16>> {
    if forall|i: int| 0 <= i < p.len() ==> group_of(#[trigger] p[i]) is Some {
        Some(Seq::new(p.len(), |i: int| group_of(p[i])->0))
    } else {
        None
    }
}

/// The two groups that hold an IPv4 address.
pub open spec fn v4_groups(a: Ipv4Addr) -> Seq<u16> {
    seq![
        (a.octets[0] * 256 + a.octets[1]) as u16,
        (a.octets[2] * 256 + a.octets[3]) as u16,
    ]
}

/// The groups that the pieces `p` write, where the last may be an IPv4 address.
pub open spec fn mixed_groups(p: Seq<Seq<char>>) -> Option<Seq<u16>> {
    if p.len() > 0 && v4_of(p.last()) is Some {
        match hex_groups(p.drop_last()) {
            Some(g) => Some(g + v4_groups(v4_of(p.last())->0)),
            None => None,
        }
    } else {
        hex_groups(p)
    }
}

/// The groups on the left of `::`.
pub open spec fn left_groups(s: Seq<char>) -> Option<Seq<u16>> {
    if s.len() == 0 {
        Some(Seq::empty())
    } else {
        hex_groups(pieces(s, ':'))
    }
}

/// The groups on the right of `::`.
pub open spec fn right_groups(s: Seq<char>) -> Option<Seq<u16>> {
    if s.len() == 0 {
        Some(Seq::empty())
    } else {
        mixed_groups(pieces(s, ':'))
    }
}

/// `n` zero groups.
pub open spec fn zeros(n: int) -> Seq<u16> {
    Seq::new(n as nat, |i: int| 0u16)
}

/// The eight groups that `s` writes.
pub open spec fn v6_groups_of(s: Seq<char>) -> Option<Seq<u16>> {
    match cut(s, "::"@) {
        None => match mixed_groups(pieces(s, ':')) {
            Some(g) => if g.len() == 8 {
                Some(g)
            } else {
                None
            },
            None => None,
        },
        Some((l, r)) => match (left_groups(l), right_groups(r)) {
            (Some(h), Some(t)) => if h.len() + t.len() <= 7 {
                Some(h + zeros(8 - h.len() - t.len()) + t)
            } else {
                None
            },
            _ => None,
        },
    }
}

/// The address made of eight groups.
pub open spec fn v6_from(g: Seq<u16>) -> Ipv6Addr {
    Ipv6Addr { segments: [g[0], g[1], g[2], g[3], g[4], g[5], g[6], g[7]] }
}

/// The IPv6 address that `s` writes.
pub open spec fn v6_of(s: Seq<char>) -> Option<Ipv6Addr> {
    match v6_groups_of(s) {
        Some(g) => Some(v6_from(g)),
        None => None,
    }
}

/// The address that `s` writes.
pub open spec fn ip_of(s: Seq<char>) -> Option<IpAddr> {
    match v4_of(s) {
        Some(a) => Some(IpAddr::V4(a)),
        None => match v6_of(s) {
            Some(a) => Some(IpAddr::V6(a)),
            None => None,
        },
    }
}

/// `s` writes a number in decimal that is at most `limit`.
pub open spec fn is_decimal_up_to(s: Seq<char>, limit: int) -> bool {
    is_number(s, 10) && number_value(s, 10) <= limit
}

/// The address of a socket address: `a.b.c.d:port`, `[v6]:port` or `[v6%scope]:port`.
pub open spec fn socket_ip_of(s: Seq<char>) -> Option<IpAddr> {
    match cut(s, ":"@) {
        Some((host, number)) if v4_of(host) is Some => if is_decimal_up_to(number, 65535) {
            Some(IpAddr::V4(v4_of(host)->0))
        } else {
            None
        },
        _ => bracketed_ip_of(s),
    }
}

/// The address of a socket address in brackets.
pub open spec fn bracketed_ip_of(s: Seq<char>) -> Option<IpAddr> {
    match cut(s, "]:"@) {
        Some((front, number)) => if front.len() > 0 && front[0] == '[' && is_decimal_up_to(
            number,
            65535,
        ) {
            scoped_ip_of(front.skip(1))
        } else {
            None
        },
        None => None,
    }
}

/// The address in front of an optional `%scope`.
pub open spec fn scoped_ip_of(s: Seq<char>) -> Option<IpAddr> {
    let host = match cut(s, "%"@) {
        Some((host, scope)) => if is_decimal_up_to(scope, 0xffff_ffff) {
            Some(host)
        } else {
            None
        },
        None => Some(s),
    };
    match host {
        Some(host) => match v6_of(host) {
            Some(a) => Some(IpAddr::V6(a)),
            None => None,
        },
        None => None,
    }
}

/// A number only grows as digits follow.
proof fn number_grows(s: Seq<char>, base: int, k: int)
    requires
        base >= 1,
        is_number(s, base),
        0 <= k <= s.len(),
    ensures
        0 <= number_value(s.take(k), base) <= number_value(s, base),
    decreases s.len() - k,
{
    number_nonnegative(s.take(k), base);
    if k < s.len() {
        number_grows(s, base, k + 1);
        let t = s.take(k + 1);
        assert(t.drop_last() == s.take(k));
        assert(t.last() == s[k]);
        assert(digit_value(s[k], base) is Some);
        let v = number_value(s.take(k), base);
        assert(v * base >= v) by (nonlinear_arith)
            requires
                v >= 0,
                base >= 1,
        ;
    } else {
        assert(s.take(k) == s);
    }
}

/// A number is not negative.
pub proof fn number_nonnegative(s: Seq<char>, base: int)
    requires
        base >= 1,
        forall|i: int| 0 <= i < s.len() ==> digit_value(#[trigger] s[i], base) is Some,
    ensures
        number_value(s, base) >= 0,
    decreases s.len(),
{
    if s.len() > 0 {
        number_nonnegative(s.drop_last(), base);
        let v = number_value(s.drop_last(), base);
        assert(v * base >= 0) by (nonlinear_arith)
            requires
                v >= 0,
                base >= 1,
        ;
        assert(digit_value(s[s.len() - 1], base) is Some);
    }
}

/// The value of one digit.
fn read_digit(c: char, base: u64) -> (r: Option<u64>)
    requires
        base == 10 || base == 16,
    ensures
        match r {
            Some(d) => digit_value(c, base as int) == Some(d as int) && d < base,
            None => digit_value(c, base as int) is None,
        },
{
    let u: u32 = c as u32;
    if '0' <= c && c <= '9' {
        Some((u - 48) as u64)
    } else if base == 16 && 'a' <= c && c <= 'f' {
        Some((u - 87) as u64)
    } else if base == 16 && 'A' <= c && c <= 'F' {
        Some((u - 55) as u64)
    } else {
        None
    }
}

/// Reads a number that is at most `limit`.
fn read_number(s: &[char], base: u64, limit: u64) -> (r: Option<u64>)
    requires
        base == 10 || base == 16,
        limit <= 0xffff_ffff,
    ensures
        match r {
            Some(n) => {
                &&& is_number(s@, base as int)
                &&& number_value(s@, base as int) == n
                &&& n <= limit
            },
            None => !(is_number(s@, base as int) && number_value(s@, base as int) <= limit),
        },
{
    if s.len() == 0 {
        return None;
    }
    let mut n: u64 = 0;
    let mut i: usize = 0;
    while i < s.len()
        invariant
            i <= s@.len(),
            base == 10 || base == 16,
            limit <= 0xffff_ffff,
            n <= limit,
            n == number_value(s@.take(i as int), base as int),
            forall|j: int| 0 <= j < i ==> digit_value(#[trigger] s@[j], base as int) is Some,
        decreases s@.len() - i,
    {
        match read_digit(s[i], base) {
            Some(d) => {
                assert(s@.take(i + 1).drop_last() == s@.take(i as int));
                assert(n * base <= 0xffff_ffff * 16) by (nonlinear_arith)
                    requires
                        n <= 0xffff_ffff,
                        base <= 16,
                ;
                let m: u64 = n * base + d;
                assert(number_value(s@.take(i + 1), base as int) == m);
                if m > limit {
                    proof {
                        if is_number(s@, base as int) {
                            number_grows(s@, base as int, i + 1);
                        }
                    }
                    return None;
                }
                n = m;
                i = i + 1;
            },
            None => {
                assert(digit_value(s@[i as int], base as int) is None);
                return None;
            },
        }
    }
    assert(s@.take(i as int) == s@);
    Some(n)
}

/// Four hexadecimal digits write less than 65536.
proof fn group_fits(s: Seq<char>)
    requires
        is_number(s, 16),
        s.len() <= 4,
    ensures
        0 <= number_value(s, 16) <= 65535,
{
    reveal_with_fuel(number_value, 6);
    number_nonnegative(s, 16);
    assert(s.last() == s[s.len() - 1]);
    if s.len() > 1 {
        assert(s.drop_last().last() == s[s.len() - 2]);
    }
    if s.len() > 2 {
        assert(s.drop_last().drop_last().last() == s[s.len() - 3]);
    }
    if s.len() > 3 {
        assert(s.drop_last().drop_last().drop_last().last() == s[s.len() - 4]);
    }
}

/// Reads an octet.
fn read_octet(s: &[char]) -> (r: Option<u8>)
    ensures
        r == octet_of(s@),
{
    if s.len() == 0 || s.len() > 3 {
        return None;
    }
    if s.len() > 1 && s[0] == '0' {
        return None;
    }
    match read_number(s, 10, 255) {
        Some(n) => Some(n as u8),
        None => None,
    }
}

/// Reads a group.
fn read_group(s: &[char]) -> (r: Option<u16>)
    ensures
        r == group_of(s@),
{
    if s.len() == 0 || s.len() > 4 {
        return None;
    }
    proof {
        if is_number(s@, 16) {
            group_fits(s@);
        }
    }
    match read_number(s, 16, 65535) {
        Some(n) => Some(n as u16),
        None => None,
    }
}

/// Reads an IPv4 address.
pub fn parse_v4(s: &[char]) -> (r: Option<Ipv4Addr>)
    ensures
        r == v4_of(s@),
{
    let p: Vec<&[char]> = split(s, '.');
    let ghost q = pieces(s@, '.');
    assert(views(p@) == q);
    if p.len() != 4 {
        return None;
    }
    assert(q[0] == p@[0]@ && q[1] == p@[1]@ && q[2] == p@[2]@ && q[3] == p@[3]@);
    match (read_octet(p[0]), read_octet(p[1]), read_octet(p[2]), read_octet(p[3])) {
        (Some(a), Some(b), Some(c), Some(d)) => Some(Ipv4Addr { octets: [a, b, c, d] }),
        _ => None,
    }
}

/// Reads the first `n` pieces as groups.
fn read_groups(p: &Vec<&[char]>, n: usize) -> (r: Option<Vec<u16>>)
    requires
        n <= p@.len(),
    ensures
        match r {
            Some(g) => hex_groups(views(p@).take(n as int)) == Some(g@),
            None => hex_groups(views(p@).take(n as int)) is None,
        },
{
    let ghost q = views(p@).take(n as int);
    let mut g: Vec<u16> = Vec::new();
    let mut i: usize = 0;
    while i < n
        invariant
            i <= n,
            n <= p@.len(),
            q == views(p@).take(n as int),
            g@.len() == i,
            forall|j: int| 0 <= j < i ==> group_of(#[trigger] q[j]) == Some(g@[j]),
        decreases n - i,
    {
        assert(q[i as int] == p@[i as int]@);
        match read_group(p[i]) {
            Some(x) => {
                g.push(x);
            },
            None => {
                assert(group_of(q[i as int]) is None);
                return None;
            },
        }
        i = i + 1;
    }
    assert(hex_groups(q)->0 =~= g@);
    Some(g)
}

/// Reads pieces as groups, where the last may be an IPv4 address.
fn read_mixed(p: &Vec<&[char]>) -> (r: Option<Vec<u16>>)
    requires
        p@.len() > 0,
    ensures
        match r {
            Some(g) => mixed_groups(views(p@)) == Some(g@),
            None => mixed_groups(views(p@)) is None,
        },
{
    let n: usize = p.len();
    let ghost q = views(p@);
    assert(q.last() == p@[n - 1]@);
    match parse_v4(p[n - 1]) {
        Some(a) => {
            assert(q.drop_last() == q.take(n - 1));
            match read_groups(p, n - 1) {
                Some(g) => {
                    let mut g: Vec<u16> = g;
                    let ghost before = g@;
                    let hi: u16 = a.octets[0] as u16 * 256 + a.octets[1] as u16;
                    let lo: u16 = a.octets[2] as u16 * 256 + a.octets[3] as u16;
                    g.push(hi);
                    g.push(lo);
                    assert(g@ == before + v4_groups(a));
                    Some(g)
                },
                None => None,
            }
        },
        None => {
            assert(q.take(n as int) == q);
            read_groups(p, n)
        },
    }
}

/// Reads one side of `::`.
fn read_side(s: &[char], left: bool) -> (r: Option<Vec<u16>>)
    ensures
        match r {
            Some(g) => (if left {
                left_groups(s@)
            } else {
                right_groups(s@)
            }) == Some(g@),
            None => (if left {
                left_groups(s@)
            } else {
                right_groups(s@)
            }) is None,
        },
{
    if s.len() == 0 {
        let g: Vec<u16> = Vec::new();
        assert(g@ == Seq::<u16>::empty());
        return Some(g);
    }
    let p: Vec<&[char]> = split(s, ':');
    proof {
        pieces_not_empty(s@, ':');
    }
    assert(views(p@).len() == p@.len());
    if left {
        assert(views(p@).take(p@.len() as int) == views(p@));
        read_groups(&p, p.len())
    } else {
        read_mixed(&p)
    }
}

/// There is always at least one piece.
proof fn pieces_not_empty(s: Seq<char>, c: char)
    ensures
        pieces(s, c).len() > 0,
{
}

/// Reads an IPv6 address.
pub fn parse_v6(s: &[char]) -> (r: Option<Ipv6Addr>)
    ensures
        r == v6_of(s@),
{
    match split_once(s, "::") {
        None => {
            let p: Vec<&[char]> = split(s, ':');
            proof {
                pieces_not_empty(s@, ':');
            }
            assert(views(p@).len() == p@.len());
            match read_mixed(&p) {
                Some(g) => {
                    if g.len() != 8 {
                        return None;
                    }
                    Some(Ipv6Addr { segments: [g[0], g[1], g[2], g[3], g[4], g[5], g[6], g[7]] })
                },
                None => None,
            }
        },
        Some((l, r)) => {
            match (read_side(l, true), read_side(r, false)) {
                (Some(h), Some(t)) => {
                    if h.len() > 7 || t.len() > 7 - h.len() {
                        return None;
                    }
                    let ghost all = h@ + zeros(8 - h@.len() - t@.len()) + t@;
                    let mut g: Vec<u16> = Vec::new();
                    let mut i: usize = 0;
                    while i < 8
                        invariant
                            i <= 8,
                            h@.len() + t@.len() <= 7,
                            all == h@ + zeros(8 - h@.len() - t@.len()) + t@,
                            g@ == all.take(i as int),
                        decreases 8 - i,
                    {
                        let x: u16 = if i < h.len() {
                            h[i]
                        } else if i < 8 - t.len() {
                            0
                        } else {
                            t[i - (8 - t.len())]
                        };
                        g.push(x);
                        i = i + 1;
                    }
                    assert(g@ == all);
                    Some(Ipv6Addr { segments: [g[0], g[1], g[2], g[3], g[4], g[5], g[6], g[7]] })
                },
                _ => None,
            }
        },
    }
}

/// Reads an address of either family.
pub fn parse_ip(s: &[char]) -> (r: Option<IpAddr>)
    ensures
        r == ip_of(s@),
{
    match parse_v4(s) {
        Some(a) => Some(IpAddr::V4(a)),
        None => match parse_v6(s) {
            Some(a) => Some(IpAddr::V6(a)),
            None => None,
        },
    }
}

/// Reads the address of a socket address, whatever its number.
pub fn parse_socket_ip(s: &[char]) -> (r: Option<IpAddr>)
    ensures
        r == socket_ip_of(s@),
{
    match split_once(s, ":") {
        Some((host, number)) => match parse_v4(host) {
            Some(a) => match read_number(number, 10, 65535) {
                Some(_) => Some(IpAddr::V4(a)),
                None => None,
            },
            None => parse_bracketed(s),
        },
        None => parse_bracketed(s),
    }
}

/// Reads the address of a socket address in brackets.
fn parse_bracketed(s: &[char]) -> (r: Option<IpAddr>)
    ensures
        r == bracketed_ip_of(s@),
{
    match split_once(s, "]:") {
        Some((front, number)) => {
            if front.len() == 0 || front[0] != '[' {
                return None;
            }
            match read_number(number, 10, 65535) {
                Some(_) => {
                    assert(front@.subrange(1, front@.len() as int) == front@.skip(1));
                    parse_scoped(slice_subrange(front, 1, front.len()))
                },
                None => None,
            }
        },
        None => None,
    }
}

/// Reads the address in front of an optional scope.
fn parse_scoped(s: &[char]) -> (r: Option<IpAddr>)
    ensures
        r == scoped_ip_of(s@),
{
    let host: &[char] = match split_once(s, "%") {
        Some((host, scope)) => match read_number(scope, 10, 0xffff_ffff) {
            Some(_) => host,
            None => {
                return None;
            },
        },
        None => s,
    };
    match parse_v6(host) {
        Some(a) => Some(IpAddr::V6(a)),
        None => None,
    }
}

/// The text of an IPv4 address.
pub open spec fn v4_text(a: Ipv4Addr) -> Seq<char> {
    joined(Seq::new(4, |i: int| decimal(a.octets[i] as nat)), seq!['.'])
}

/// The groups `g` in hexadecimal with colons between them.
pub open spec fn groups_text(g: Seq<u16>) -> Seq<char> {
    joined(Seq::new(g.len(), |i: int| hexadecimal(g[i] as nat)), seq![':'])
}

/// How many zero groups stand in a row from `i` on.
pub open spec fn zero_run(g: Seq<u16>, i: int) -> int
    decreases g.len() - i,
{
    if 0 <= i < g.len() && g[i] == 0 {
        1 + zero_run(g, i + 1)
    } else {
        0
    }
}

/// Among the starts up to `k`, the first with the longest run of zero groups.
pub open spec fn longest_run(g: Seq<u16>, k: int) -> int
    decreases k,
{
    if k <= 0 {
        0
    } else if zero_run(g, k) > zero_run(g, longest_run(g, k - 1)) {
        k
    } else {
        longest_run(g, k - 1)
    }
}

/// The address embeds an IPv4 address, as `::ffff:a.b.c.d` does.
pub open spec fn is_v4_mapped(a: Ipv6Addr) -> bool {
    &&& a.segments@.take(5) == zeros(5)
    &&& a.segments[5] == 0xffff
}

/// The IPv4 address that an IPv6 address embeds.
pub open spec fn embedded_v4(a: Ipv6Addr) -> Ipv4Addr {
    Ipv4Addr {
        octets: [
            (a.segments[6] / 256) as u8,
            (a.segments[6] % 256) as u8,
            (a.segments[7] / 256) as u8,
            (a.segments[7] % 256) as u8,
        ],
    }
}

/// The text of an IPv6 address: the first of the longest runs of two or more zero groups is
/// left out, and an embedded IPv4 address is written as one.
pub open spec fn v6_text(a: Ipv6Addr) -> Seq<char> {
    let g = a.segments@;
    let i = longest_run(g, 7);
    let n = zero_run(g, i);
    if is_v4_mapped(a) {
        "::ffff:"@ + v4_text(embedded_v4(a))
    } else if n > 1 {
        groups_text(g.take(i)) + "::"@ + groups_text(g.skip(i + n))
    } else {
        groups_text(g)
    }
}

/// The text of an address.
pub open spec fn ip_text(a: IpAddr) -> Seq<char> {
    match a {
        IpAddr::V4(a) => v4_text(a),
        IpAddr::V6(a) => v6_text(a),
    }
}

/// Writes an IPv4 address.
pub fn format_v4(a: &Ipv4Addr) -> (out: Vec<char>)
    ensures
        out@ == v4_text(*a),
{
    let mut out: Vec<char> = Vec::new();
    let ghost p = Seq::new(4, |i: int| decimal(a.octets[i] as nat));
    let mut i: usize = 0;
    while i < 4
        invariant
            i <= 4,
            p == Seq::new(4, |i: int| decimal(a.octets[i] as nat)),
            out@ == joined(p.take(i as int), seq!['.']),
        decreases 4 - i,
    {
        let ghost before = out@;
        if i > 0 {
            out.push('.');
        }
        let d: Vec<char> = to_numeral(a.octets[i] as u64, 10);
        push_all(&mut out, d.as_slice());
        assert(p.take(i + 1).drop_last() == p.take(i as int));
        assert(p.take(i + 1).last() == d@);
        i = i + 1;
    }
    assert(p.take(4) == p);
    out
}

/// Writes the groups `g[from..to]`.
fn format_groups(g: &[u16; 8], from: usize, to: usize) -> (out: Vec<char>)
    requires
        from <= to <= 8,
    ensures
        out@ == groups_text(g@.subrange(from as int, to as int)),
{
    let ghost s = g@.subrange(from as int, to as int);
    let ghost p = Seq::new(s.len(), |i: int| hexadecimal(s[i] as nat));
    let mut out: Vec<char> = Vec::new();
    let mut i: usize = from;
    while i < to
        invariant
            from <= i <= to <= 8,
            s == g@.subrange(from as int, to as int),
            p == Seq::new(s.len(), |i: int| hexadecimal(s[i] as nat)),
            out@ == joined(p.take(i - from), seq![':']),
        decreases to - i,
    {
        let ghost k = i - from;
        if i > from {
            out.push(':');
        }
        let d: Vec<char> = to_numeral(g[i] as u64, 16);
        push_all(&mut out, d.as_slice());
        assert(p.take(k + 1).drop_last() == p.take(k));
        assert(p.take(k + 1).last() == d@);
        i = i + 1;
    }
    assert(p.take(to - from) == p);
    out
}

/// Counts the zero groups from `i` on.
fn count_zeros(g: &[u16; 8], i: usize) -> (n: usize)
    requires
        i <= 8,
    ensures
        n == zero_run(g@, i as int),
        n <= 8 - i,
    decreases 8 - i,
{
    if i < 8 && g[i] == 0 {
        1 + count_zeros(g, i + 1)
    } else {
        0
    }
}

/// Writes an IPv6 address.
pub fn format_v6(a: &Ipv6Addr) -> (out: Vec<char>)
    ensures
        out@ == v6_text(*a),
{
    let g: &[u16; 8] = &a.segments;
    let leading: usize = count_zeros(g, 0);
    if leading == 5 && g[5] == 0xffff {
        proof {
            zero_run_zeros(g@, 0);
            assert(a.segments@.take(5) =~= zeros(5));
        }
        let mut out: Vec<char> = Vec::new();
        push_str(&mut out, "::ffff:");
        let v4 = Ipv4Addr {
            octets: [
                (g[6] / 256) as u8,
                (g[6] % 256) as u8,
                (g[7] / 256) as u8,
                (g[7] % 256) as u8,
            ],
        };
        let t: Vec<char> = format_v4(&v4);
        push_all(&mut out, t.as_slice());
        return out;
    }
    proof {
        if is_v4_mapped(*a) {
            reveal_with_fuel(zero_run, 7);
            assert forall|j: int| 0 <= j < 5 implies g@[j] == 0 by {
                assert(g@[j] == a.segments@.take(5)[j]);
            }
            assert(false);
        }
    }
    let mut best: usize = 0;
    let mut longest: usize = leading;
    let mut i: usize = 1;
    while i < 8
        invariant
            1 <= i <= 8,
            best < 8,
            best == longest_run(g@, i - 1),
            longest == zero_run(g@, best as int),
            longest <= 8 - best,
        decreases 8 - i,
    {
        let n: usize = count_zeros(g, i);
        if n > longest {
            best = i;
            longest = n;
        }
        i = i + 1;
    }
    if longest > 1 {
        let mut out: Vec<char> = format_groups(g, 0, best);
        push_str(&mut out, "::");
        let tail: Vec<char> = format_groups(g, best + longest, 8);
        push_all(&mut out, tail.as_slice());
        assert(g@.subrange(0, best as int) == g@.take(best as int));
        assert(g@.subrange(best + longest, 8) == g@.skip(best + longest));
        out
    } else {
        assert(g@.subrange(0, 8) == g@);
        format_groups(g, 0, 8)
    }
}

/// Writes an address.
pub fn format_ip(a: &IpAddr) -> (out: Vec<char>)
    ensures
        out@ == ip_text(*a),
{
    match a {
        IpAddr::V4(a) => format_v4(a),
        IpAddr::V6(a) => format_v6(a),
    }
}

/// What `zero_run` counts.
pub proof fn zero_run_zeros(g: Seq<u16>, i: int)
    requires
        0 <= i <= g.len(),
    ensures
        0 <= zero_run(g, i) <= g.len() - i,
        forall|j: int| i <= j < i + zero_run(g, i) ==> g[j] == 0,
    decreases g.len() - i,
{
    if i < g.len() && g[i] == 0 {
        zero_run_zeros(g, i + 1);
    }
}

/// A numeral is made of digits and writes its number.
pub proof fn numeral_reads_back(n: nat, base: nat)
    requires
        base == 10 || base == 16,
    ensures
        is_number(numeral(n, base), base as int),
        number_value(numeral(n, base), base as int) == n,
    decreases n,
{
    let s = numeral(n, base);
    if n < base {
        assert(s.last() == digit(n as int));
        assert(s.drop_last() == Seq::<char>::empty());
        reveal_with_fuel(number_value, 2);
    } else {
        assert(n / base < n) by (nonlinear_arith)
            requires
                n >= base,
                base >= 2,
        ;
        numeral_reads_back(n / base, base);
        let front = numeral(n / base, base);
        assert(s.drop_last() == front);
        assert(s.last() == digit((n % base) as int));
        assert forall|i: int| 0 <= i < s.len() implies digit_value(
            #[trigger] s[i],
            base as int,
        ) is Some by {
            if i < front.len() {
                assert(s[i] == front[i]);
            }
        }
        assert((n / base) * base + n % base == n) by (nonlinear_arith)
            requires
                base >= 2,
        ;
    }
}

/// Digits are neither dots nor colons.
pub proof fn number_has_no_separator(s: Seq<char>, base: int)
    requires
        is_number(s, base),
    ensures
        !s.contains('.'),
        !s.contains(':'),
{
    if s.contains('.') {
        let i = choose|i: int| 0 <= i < s.len() && s[i] == '.';
        assert(digit_value(s[i], base) is Some);
    }
    if s.contains(':') {
        let i = choose|i: int| 0 <= i < s.len() && s[i] == ':';
        assert(digit_value(s[i], base) is Some);
    }
}

/// An octet reads back from its decimal text.
pub proof fn octet_reads_back(n: u8)
    ensures
        octet_of(decimal(n as nat)) == Some(n),
        !decimal(n as nat).contains('.'),
        !decimal(n as nat).contains(':'),
        decimal(n as nat).len() > 0,
{
    numeral_reads_back(n as nat, 10);
    number_has_no_separator(decimal(n as nat), 10);
    reveal_with_fuel(numeral, 4);
    let s = decimal(n as nat);
    if n >= 100 {
        assert(s[0] == digit(n as int / 10 / 10));
    } else if n >= 10 {
        assert(s[0] == digit(n as int / 10));
    }
}

/// A group reads back from its hexadecimal text.
proof fn group_reads_back(n: u16)
    ensures
        group_of(hexadecimal(n as nat)) == Some(n),
        !hexadecimal(n as nat).contains('.'),
        !hexadecimal(n as nat).contains(':'),
        hexadecimal(n as nat).len() > 0,
{
    numeral_reads_back(n as nat, 16);
    number_has_no_separator(hexadecimal(n as nat), 16);
    reveal_with_fuel(numeral, 5);
}

/// Reading the text of an IPv4 address gives the address back.
pub proof fn v4_reads_back(a: Ipv4Addr)
    ensures
        v4_of(v4_text(a)) == Some(a),
{
    let p = Seq::new(4, |i: int| decimal(a.octets[i] as nat));
    assert forall|i: int| 0 <= i < p.len() implies !(#[trigger] p[i]).contains('.') by {
        octet_reads_back(a.octets[i]);
    }
    pieces_of_joined(p, '.');
    octet_reads_back(a.octets[0]);
    octet_reads_back(a.octets[1]);
    octet_reads_back(a.octets[2]);
    octet_reads_back(a.octets[3]);
    let b = v4_of(v4_text(a))->0;
    assert(b.octets =~= a.octets);
}

/// The text of an IPv4 address holds no colon, and no text that holds one reads as an IPv4
/// address.
pub proof fn v4_has_no_colon(s: Seq<char>)
    requires
        v4_of(s) is Some,
    ensures
        !s.contains(':'),
{
    let p = pieces(s, '.');
    if s.contains(':') {
        let i = choose|i: int| 0 <= i < s.len() && s[i] == ':';
        joined_of_pieces(s, '.');
        joined_holds(p, '.', i);
        let k = choose|k: int| 0 <= k < p.len() && (#[trigger] p[k]).contains(s[i]);
        assert(k == 0 || k == 1 || k == 2 || k == 3);
        number_has_no_separator(p[k], 10);
    }
}

/// A join of nonempty texts without colons starts and ends with none, and never has two
/// in a row.
pub proof fn colons_stand_alone(p: Seq<Seq<char>>)
    requires
        forall|i: int| 0 <= i < p.len() ==> (#[trigger] p[i]).len() > 0 && !p[i].contains(':'),
    ensures
        ({
            let s = joined(p, seq![':']);
            &&& p.len() > 0 ==> s.len() > 0 && s[0] != ':' && s.last() != ':'
            &&& forall|j: int| 0 <= j < s.len() - 1 ==> !(#[trigger] s[j] == ':' && s[j + 1] == ':')
        }),
    decreases p.len(),
{
    let s = joined(p, seq![':']);
    if p.len() == 1 {
        assert(!p[0].contains(':'));
        assert(s == p[0]);
        assert(p[0].contains(p[0][0]));
        assert(p[0].contains(p[0].last()));
        assert forall|j: int| 0 <= j < s.len() - 1 implies !(#[trigger] s[j] == ':' && s[j + 1]
            == ':') by {
            assert(p[0].contains(s[j]));
        }
    } else if p.len() > 1 {
        let q = p.drop_last();
        assert forall|i: int| 0 <= i < q.len() implies (#[trigger] q[i]).len() > 0 && !q[i].contains(
            ':',
        ) by {
            assert(q[i] == p[i]);
        }
        colons_stand_alone(q);
        let front = joined(q, seq![':']);
        let back = p[p.len() - 1];
        assert(s == front + seq![':'] + back);
        assert(back.contains(back[0]));
        assert(back.contains(back.last()));
        assert forall|j: int| 0 <= j < s.len() - 1 implies !(#[trigger] s[j] == ':' && s[j + 1]
            == ':') by {
            if j < front.len() - 1 {
                assert(s[j] == front[j] && s[j + 1] == front[j + 1]);
            } else if j == front.len() - 1 {
                assert(s[j] == front.last());
            } else if j == front.len() {
                assert(s[j + 1] == back[0]);
            } else {
                assert(s[j] == back[j - front.len() - 1]);
                assert(back.contains(s[j]));
            }
        }
    }
}

/// The pieces of groups in text are the groups' numerals.
proof fn groups_text_reads_back(g: Seq<u16>)
    requires
        g.len() > 0,
    ensures
        hex_groups(pieces(groups_text(g), ':')) == Some(g),
        mixed_groups(pieces(groups_text(g), ':')) == Some(g),
        groups_text(g).len() > 0,
        groups_text(g)[0] != ':',
        groups_text(g).last() != ':',
        forall|j: int|
            0 <= j < groups_text(g).len() - 1 ==> !(#[trigger] groups_text(g)[j] == ':'
                && groups_text(g)[j + 1] == ':'),
        g.len() > 1 ==> groups_text(g).contains(':'),
{
    let p = Seq::new(g.len(), |i: int| hexadecimal(g[i] as nat));
    assert forall|i: int| 0 <= i < p.len() implies (#[trigger] p[i]).len() > 0 && !p[i].contains(':')
        && group_of(p[i]) == Some(g[i]) by {
        group_reads_back(g[i]);
    }
    colons_stand_alone(p);
    pieces_of_joined(p, ':');
    assert(hex_groups(p)->0 =~= g);
    group_reads_back(g.last());
    let last = p.last();
    assert(last == hexadecimal(g.last() as nat));
    run_before_at(last, '.', last.len() as int);
    assert(pieces(last, '.').len() == 1);
    assert(v4_of(last) is None);
    if g.len() > 1 {
        joined_front(p, seq![':']);
        let s = groups_text(g);
        assert(s == p[0] + seq![':'] + joined(p.skip(1), seq![':']));
        assert(s[p[0].len() as int] == ':');
    }
}

/// A text without two colons in a row is not cut at `::`.
pub proof fn no_cut(s: Seq<char>)
    requires
        forall|j: int| 0 <= j < s.len() - 1 ==> !(#[trigger] s[j] == ':' && s[j + 1] == ':'),
    ensures
        cut(s, "::"@) is None,
{
    reveal_strlit("::");
    position_of_first(s, "::"@);
    match position_of(s, "::"@) {
        Some(i) => {
            let t = s.subrange(i, i + 2);
            assert(t[0] == s[i] && t[1] == s[i + 1]);
        },
        None => {},
    }
}

/// A text is cut at the `::` that follows groups.
pub proof fn cut_between(l: Seq<char>, r: Seq<char>)
    requires
        forall|j: int| 0 <= j < l.len() - 1 ==> !(#[trigger] l[j] == ':' && l[j + 1] == ':'),
        l.len() > 0 ==> l.last() != ':',
    ensures
        cut(l + "::"@ + r, "::"@) == Some((l, r)),
{
    reveal_strlit("::");
    let s = l + "::"@ + r;
    let n = l.len() as int;
    assert(s.skip(n).take(2) =~= "::"@);
    assert forall|j: int| 0 <= j < n implies !begins(#[trigger] s.skip(j), "::"@) by {
        if begins(s.skip(j), "::"@) {
            assert(s.skip(j).take(2)[0] == s[j] && s.skip(j).take(2)[1] == s[j + 1]);
            if j < n - 1 {
                assert(s[j] == l[j] && s[j + 1] == l[j + 1]);
            } else {
                assert(s[j] == l.last());
            }
        }
    }
    position_of_at(s, "::"@, n);
    assert(s.take(n) =~= l);
    assert(s.skip(n + 2) =~= r);
}

/// The chosen run lies within the address.
pub proof fn longest_run_bounds(g: Seq<u16>, k: int)
    requires
        0 <= k,
    ensures
        0 <= longest_run(g, k) <= k,
    decreases k,
{
    if k > 0 {
        longest_run_bounds(g, k - 1);
    }
}

/// The text of an IPv6 address that embeds an IPv4 address reads back.
proof fn mapped_reads_back(a: Ipv6Addr)
    requires
        is_v4_mapped(a),
    ensures
        v6_groups_of(v6_text(a)) == Some(a.segments@),
        v6_text(a).contains(':'),
{
    let g = a.segments@;
    let v4 = embedded_v4(a);
    let t = v4_text(v4);
    v4_reads_back(v4);
    v4_has_no_colon(t);
    reveal_strlit("::ffff:");
    reveal_strlit("::");
    let ffff = seq!['f', 'f', 'f', 'f'];
    let p = seq![ffff, t];
    let r = joined(p, seq![':']);
    joined_front(p, seq![':']);
    assert(p.skip(1) =~= seq![t]);
    assert(r =~= ffff + seq![':'] + t);
    let l = Seq::<char>::empty();
    assert(v6_text(a) =~= l + "::"@ + r);
    cut_between(l, r);
    assert(v6_text(a)[0] == ':');
    assert(!ffff.contains(':'));
    pieces_of_joined(p, ':');
    assert(p.drop_last() =~= seq![ffff]);
    assert(number_value(ffff, 16) == 0xffff) by {
        reveal_with_fuel(number_value, 6);
        assert(ffff.drop_last() =~= seq!['f', 'f', 'f']);
        assert(ffff.drop_last().drop_last() =~= seq!['f', 'f']);
        assert(ffff.drop_last().drop_last().drop_last() =~= seq!['f']);
    }
    assert(group_of(ffff) == Some(0xffffu16));
    assert(hex_groups(seq![ffff])->0 =~= seq![0xffffu16]);
    let rg = seq![0xffffu16] + v4_groups(v4);
    assert(right_groups(r) == Some(rg));
    let all = Seq::<u16>::empty() + zeros(5) + rg;
    assert forall|j: int| 0 <= j < 8 implies all[j] == g[j] by {
        if j < 5 {
            assert(g[j] == g.take(5)[j]);
        }
    }
    assert(all =~= g);
}

/// Groups in text, with a run of `n` zero groups from `i` on left out, read back.
proof fn compressed_reads_back(g: Seq<u16>, i: int, n: int)
    requires
        g.len() == 8,
        0 <= i,
        1 < n,
        i + n <= 8,
        forall|j: int| i <= j < i + n ==> g[j] == 0,
    ensures
        v6_groups_of(groups_text(g.take(i)) + "::"@ + groups_text(g.skip(i + n))) == Some(g),
        (groups_text(g.take(i)) + "::"@ + groups_text(g.skip(i + n))).contains(':'),
{
    let l = groups_text(g.take(i));
    let r = groups_text(g.skip(i + n));
    assert(left_groups(l) == Some(g.take(i))) by {
        if i > 0 {
            groups_text_reads_back(g.take(i));
        } else {
            assert(l.len() == 0);
            assert(g.take(i) =~= Seq::<u16>::empty());
        }
    }
    assert(right_groups(r) == Some(g.skip(i + n))) by {
        if i + n < 8 {
            groups_text_reads_back(g.skip(i + n));
        } else {
            assert(r.len() == 0);
            assert(g.skip(i + n) =~= Seq::<u16>::empty());
        }
    }
    assert(cut(l + "::"@ + r, "::"@) == Some((l, r))) by {
        if i > 0 {
            groups_text_reads_back(g.take(i));
        }
        cut_between(l, r);
    }
    assert(g.take(i) + zeros(n) + g.skip(i + n) =~= g);
    assert((l + "::"@ + r).contains(':')) by {
        reveal_strlit("::");
        assert((l + "::"@ + r)[l.len() as int] == ':');
    }
}

/// Reading the text of an IPv6 address gives the address back.
pub proof fn v6_reads_back(a: Ipv6Addr)
    ensures
        v6_of(v6_text(a)) == Some(a),
        v6_text(a).contains(':'),
{
    let g = a.segments@;
    let i = longest_run(g, 7);
    let n = zero_run(g, i);
    longest_run_bounds(g, 7);
    zero_run_zeros(g, i);
    if is_v4_mapped(a) {
        mapped_reads_back(a);
    } else if n > 1 {
        compressed_reads_back(g, i, n);
    } else {
        groups_text_reads_back(g);
        no_cut(groups_text(g));
    }
    assert(v6_from(g).segments =~= a.segments);
}

/// Reading the text of an address gives the address back.
pub proof fn ip_reads_back(a: IpAddr)
    ensures
        ip_of(ip_text(a)) == Some(a),
{
    match a {
        IpAddr::V4(b) => {
            v4_reads_back(b);
        },
        IpAddr::V6(b) => {
            v6_reads_back(b);
            if v4_of(v6_text(b)) is Some {
                v4_has_no_colon(v6_text(b));
            }
        },
    }
}

/// `s` is made of hexadecimal digits, dots and colons.
pub open spec fn is_plain_address(s: Seq<char>) -> bool {
    forall|i: int|
        0 <= i < s.len() ==> (digit_value(#[trigger] s[i], 16) is Some || s[i] == '.' || s[i]
            == ':')
}

/// A join of texts that are made of hexadecimal digits, dots and colons is made of them.
proof fn plain_join(p: Seq<Seq<char>>, sep: Seq<char>)
    requires
        forall|i: int| 0 <= i < p.len() ==> is_plain_address(#[trigger] p[i]),
        is_plain_address(sep),
    ensures
        is_plain_address(joined(p, sep)),
    decreases p.len(),
{
    if p.len() > 1 {
        let front = p.drop_last();
        assert forall|i: int| 0 <= i < front.len() implies is_plain_address(
            #[trigger] front[i],
        ) by {
            assert(front[i] == p[i]);
        }
        plain_join(front, sep);
        assert(is_plain_address(p[p.len() - 1]));
    }
}

/// A decimal or hexadecimal numeral is made of hexadecimal digits.
pub proof fn plain_numeral(n: nat, base: nat)
    requires
        base == 10 || base == 16,
    ensures
        is_plain_address(numeral(n, base)),
        numeral(n, base).len() > 0,
{
    numeral_reads_back(n, base);
    let s = numeral(n, base);
    assert forall|i: int| 0 <= i < s.len() implies digit_value(#[trigger] s[i], 16) is Some by {
        assert(digit_value(s[i], base as int) is Some);
    }
}

/// The text of groups is made of hexadecimal digits and colons.
proof fn plain_groups(g: Seq<u16>)
    ensures
        is_plain_address(groups_text(g)),
{
    let p = Seq::new(g.len(), |i: int| hexadecimal(g[i] as nat));
    assert forall|i: int| 0 <= i < p.len() implies is_plain_address(#[trigger] p[i]) by {
        plain_numeral(g[i] as nat, 16);
    }
    plain_join(p, seq![':']);
}

/// The text of an address is not empty and is made of hexadecimal digits, dots and colons.
pub proof fn address_text_is_plain(a: IpAddr)
    ensures
        is_plain_address(ip_text(a)),
        ip_text(a).len() > 0,
{
    match a {
        IpAddr::V4(a) => {
            plain_v4(a);
        },
        IpAddr::V6(a) => {
            let g = a.segments@;
            let i = longest_run(g, 7);
            let n = zero_run(g, i);
            reveal_strlit("::");
            reveal_strlit("::ffff:");
            plain_v4(embedded_v4(a));
            plain_groups(g.take(i));
            plain_groups(g.skip(i + n));
            plain_groups(g);
            if !is_v4_mapped(a) && n <= 1 {
                let p = Seq::new(g.len(), |i: int| hexadecimal(g[i] as nat));
                joined_front(p, seq![':']);
                plain_numeral(g[0] as nat, 16);
            }
        },
    }
}

/// The text of an IPv4 address is not empty and is made of digits and dots.
proof fn plain_v4(a: Ipv4Addr)
    ensures
        is_plain_address(v4_text(a)),
        v4_text(a).len() > 0,
{
    let p = Seq::new(4, |i: int| decimal(a.octets[i] as nat));
    assert forall|i: int| 0 <= i < p.len() implies is_plain_address(#[trigger] p[i]) by {
        plain_numeral(a.octets[i] as nat, 10);
    }
    plain_join(p, seq!['.']);
    joined_front(p, seq!['.']);
    plain_numeral(a.octets[0] as nat, 10);
}

} // verus!
