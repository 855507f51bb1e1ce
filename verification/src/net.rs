//! Address ranges: their text, and what they cover.

use vstd::arithmetic::power2::pow2;
use vstd::prelude::*;

use crate::addr::{
    format_v4, format_v6, is_number, number_nonnegative, number_value, v4_text, v6_text,
    Ipv4Addr, Ipv6Addr,
};
use crate::text::{cut, decimal, pieces, push_all, to_numeral};

verus! {

/// An IPv4 range: the addresses that share the first `prefix_len` bits of `addr`.
#[derive(Clone, Copy, Debug, PartialEq, Eq)]
pub struct Ipv4Net {
    pub addr: Ipv4Addr,
    pub prefix_len: u8,
}

/// An IPv6 range: the addresses that share the first `prefix_len` bits of `addr`.
#[derive(Clone, Copy, Debug, PartialEq, Eq)]
pub struct Ipv6Net {
    pub addr: Ipv6Addr,
    pub prefix_len: u8,
}

impl Ipv4Net {
    /// The prefix is no longer than an address.
    pub open spec fn valid(self) -> bool {
        self.prefix_len <= 32
    }

    /// `a` lies in the range.
    pub open spec fn holds(self, a: Ipv4Addr) -> bool {
        v4_number(a) / pow2((32 - self.prefix_len) as nat) as int == v4_number(self.addr) / pow2(
            (32 - self.prefix_len) as nat,
        ) as int
    }
}

impl Ipv6Net {
    /// The prefix is no longer than an address.
    pub open spec fn valid(self) -> bool {
        self.prefix_len <= 128
    }

    /// `a` lies in the range.
    pub open spec fn holds(self, a: Ipv6Addr) -> bool {
        v6_number(a) / pow2((128 - self.prefix_len) as nat) as int == v6_number(self.addr) / pow2(
            (128 - self.prefix_len) as nat,
        ) as int
    }
}

/// The bits of an IPv4 address as a number.
pub open spec fn v4_number(a: Ipv4Addr) -> int {
    ((a.octets[0] * 256 + a.octets[1]) * 256 + a.octets[2]) * 256 + a.octets[3]
}

/// The first `k` groups of an IPv6 address as a number.
pub open spec fn groups_number(g: Seq<u16>, k: int) -> int
    decreases k,
{
    if k <= 0 {
        0
    } else {
        groups_number(g, k - 1) * 65536 + g[k - 1]
    }
}

/// The bits of an IPv6 address as a number.
pub open spec fn v6_number(a: Ipv6Addr) -> int {
    groups_number(a.segments@, 8)
}

/// Some range of `nets` holds `a`.
pub open spec fn v4_covered(nets: Seq<Ipv4Net>, a: Ipv4Addr) -> bool {
    exists|i: int| 0 <= i < nets.len() && (#[trigger] nets[i]).holds(a)
}

/// Some range of `nets` holds `a`.
pub open spec fn v6_covered(nets: Seq<Ipv6Net>, a: Ipv6Addr) -> bool {
    exists|i: int| 0 <= i < nets.len() && (#[trigger] nets[i]).holds(a)
}

/// No address lies in two of the ranges.
pub open spec fn v4_disjoint(nets: Seq<Ipv4Net>) -> bool {
    forall|i: int, j: int, a: Ipv4Addr|
        0 <= i < j < nets.len() ==> !((#[trigger] nets[i].holds(a)) && (
        #[trigger] nets[j].holds(a)))
}

/// No address lies in two of the ranges.
pub open spec fn v6_disjoint(nets: Seq<Ipv6Net>) -> bool {
    forall|i: int, j: int, a: Ipv6Addr|
        0 <= i < j < nets.len() ==> !((#[trigger] nets[i].holds(a)) && (
        #[trigger] nets[j].holds(a)))
}

/// Every range has a valid prefix.
pub open spec fn all_v4_valid(nets: Seq<Ipv4Net>) -> bool {
    forall|i: int| 0 <= i < nets.len() ==> (#[trigger] nets[i]).valid()
}

/// Every range has a valid prefix.
pub open spec fn all_v6_valid(nets: Seq<Ipv6Net>) -> bool {
    forall|i: int| 0 <= i < nets.len() ==> (#[trigger] nets[i]).valid()
}

/// `s` is one to `digits` decimal digits that write at most `limit`.
pub open spec fn short_number(s: Seq<char>, digits: nat, limit: int) -> bool {
    is_number(s, 10) && s.len() <= digits && number_value(s, 10) <= limit
}

/// The IPv4 range that `s` writes: four octets, a slash and a prefix length.
pub open spec fn v4_net_of(s: Seq<char>) -> Option<Ipv4Net> {
    match cut(s, "/"@) {
        Some((host, prefix)) => {
            let p = pieces(host, '.');
            if p.len() == 4 && short_number(p[0], 3, 255) && short_number(p[1], 3, 255)
                && short_number(p[2], 3, 255) && short_number(p[3], 3, 255) && short_number(
                prefix,
                2,
                32,
            ) {
                Some(
                    Ipv4Net {
                        addr: Ipv4Addr {
                            octets: [
                                number_value(p[0], 10) as u8,
                                number_value(p[1], 10) as u8,
                                number_value(p[2], 10) as u8,
                                number_value(p[3], 10) as u8,
                            ],
                        },
                        prefix_len: number_value(prefix, 10) as u8,
                    },
                )
            } else {
                None
            }
        },
        None => None,
    }
}

/// A range that is read from text has a valid prefix.
pub proof fn v4_net_is_valid(s: Seq<char>)
    ensures
        v4_net_of(s) matches Some(n) ==> n.valid(),
{
    if let Some((_, prefix)) = cut(s, "/"@) {
        if is_number(prefix, 10) {
            number_nonnegative(prefix, 10);
        }
    }
}

/// The IPv6 range that `ipnet::Ipv6Net::from_str` reads from `s`.
pub uninterp spec fn v6_net_of(s: Seq<char>) -> Option<Ipv6Net>;

/// The ranges that `ipnet::Ipv4Net::aggregate` makes of `nets`.
pub uninterp spec fn v4_aggregate(nets: Seq<Ipv4Net>) -> Seq<Ipv4Net>;

/// The ranges that `ipnet::Ipv6Net::aggregate` makes of `nets`.
pub uninterp spec fn v6_aggregate(nets: Seq<Ipv6Net>) -> Seq<Ipv6Net>;

/// `ipnet::Ipv4Net::from_str` reads four octets of one to three digits, a slash and a prefix
/// length of one or two digits that is at most 32. Octets may have leading zeros.
#[verifier::external_body]
pub(crate) fn parse_v4_net(s: &str) -> (r: Option<Ipv4Net>)
    ensures
        r == v4_net_of(s@),
{
    match s.parse::<ipnet::Ipv4Net>() {
        Ok(n) => Some(
            Ipv4Net {
                addr: Ipv4Addr { octets: n.addr().octets() },
                prefix_len: n.prefix_len(),
            },
        ),
        Err(_) => None,
    }
}

/// `ipnet::Ipv6Net::from_str` reads an IPv6 address, a slash and a prefix length that is at
/// most 128, or rejects the text. The result depends on the text alone.
#[verifier::external_body]
pub(crate) fn parse_v6_net(s: &str) -> (r: Option<Ipv6Net>)
    ensures
        r == v6_net_of(s@),
        r matches Some(n) ==> n.valid(),
{
    match s.parse::<ipnet::Ipv6Net>() {
        Ok(n) => Some(
            Ipv6Net {
                addr: Ipv6Addr { segments: n.addr().segments() },
                prefix_len: n.prefix_len(),
            },
        ),
        Err(_) => None,
    }
}

/// `ipnet::Ipv4Net::aggregate` merges ranges that overlap or touch. The result depends on the
/// ranges alone, covers the same addresses as they do, and covers none of them twice.
#[verifier::external_body]
pub(crate) fn aggregate_v4(nets: &Vec<Ipv4Net>) -> (r: Vec<Ipv4Net>)
    requires
        all_v4_valid(nets@),
    ensures
        r@ == v4_aggregate(nets@),
        all_v4_valid(r@),
        v4_disjoint(r@),
        forall|a: Ipv4Addr| #[trigger] v4_covered(r@, a) == v4_covered(nets@, a),
{
    let nets: Vec<ipnet::Ipv4Net> = nets.iter().map(
        |n| ipnet::Ipv4Net::new(n.addr.octets.into(), n.prefix_len).unwrap(),
    ).collect();
    ipnet::Ipv4Net::aggregate(&nets).iter().map(
        |n| Ipv4Net { addr: Ipv4Addr { octets: n.addr().octets() }, prefix_len: n.prefix_len() },
    ).collect()
}

/// `ipnet::Ipv6Net::aggregate` merges ranges that overlap or touch. The result depends on the
/// ranges alone, covers the same addresses as they do, and covers none of them twice.
#[verifier::external_body]
pub(crate) fn aggregate_v6(nets: &Vec<Ipv6Net>) -> (r: Vec<Ipv6Net>)
    requires
        all_v6_valid(nets@),
    ensures
        r@ == v6_aggregate(nets@),
        all_v6_valid(r@),
        v6_disjoint(r@),
        forall|a: Ipv6Addr| #[trigger] v6_covered(r@, a) == v6_covered(nets@, a),
{
    let nets: Vec<ipnet::Ipv6Net> = nets.iter().map(
        |n| ipnet::Ipv6Net::new(n.addr.segments.into(), n.prefix_len).unwrap(),
    ).collect();
    ipnet::Ipv6Net::aggregate(&nets).iter().map(
        |n| Ipv6Net { addr: Ipv6Addr { segments: n.addr().segments() }, prefix_len: n.prefix_len() },
    ).collect()
}

/// The text of an IPv4 range.
pub open spec fn v4_net_text(n: Ipv4Net) -> Seq<char> {
    v4_text(n.addr).push('/') + decimal(n.prefix_len as nat)
}

/// The text of an IPv6 range.
pub open spec fn v6_net_text(n: Ipv6Net) -> Seq<char> {
    v6_text(n.addr).push('/') + decimal(n.prefix_len as nat)
}

/// Writes an IPv4 range.
pub fn format_v4_net(n: &Ipv4Net) -> (out: Vec<char>)
    ensures
        out@ == v4_net_text(*n),
{
    let mut out: Vec<char> = format_v4(&n.addr);
    out.push('/');
    let d: Vec<char> = to_numeral(n.prefix_len as u64, 10);
    push_all(&mut out, d.as_slice());
    out
}

/// Writes an IPv6 range.
pub fn format_v6_net(n: &Ipv6Net) -> (out: Vec<char>)
    ensures
        out@ == v6_net_text(*n),
{
    let mut out: Vec<char> = format_v6(&n.addr);
    out.push('/');
    let d: Vec<char> = to_numeral(n.prefix_len as u64, 10);
    push_all(&mut out, d.as_slice());
    out
}

} // verus!
