//! The DNS proxy: matches queries against the allow-list, forwards allowed ones to the real
//! upstream, injects the resolved IPs into the nftables allow-sets, and only then returns the
//! answer to the client.
//!
//! Injecting **before** responding is the single most important correctness rule: the kernel
//! commits the set element when `nft` returns, so the IP is permitted by the time the client
//! issues `connect()`. This closes the resolve→connect race.
//!
//! One query is one exchange. [`Handler::handle_request`] takes each [`Event`] of it to the next
//! [`Action`]; the caller performs the action and reports what came of it.

use vstd::prelude::*;

use crate::addr::{Ipv4Addr, Ipv6Addr};
use crate::config::{allowed, PatternSet, Patterns};
use crate::nft::{injection_lines, script_run, Invocation, Nft, Run};
use crate::text::lined;

verus! {

/// The type of a query.
#[derive(Clone, Copy, Debug, PartialEq, Eq, Structural)]
pub enum QueryType {
    A,
    Aaaa,
    /// Any other type.
    Other,
}

/// What a resolved record holds.
#[derive(Clone, Copy, Debug, PartialEq, Eq)]
pub enum RecordData {
    A(Ipv4Addr),
    Aaaa(Ipv6Addr),
    /// Data of any other type.
    Other,
}

/// A resolved record.
#[derive(Clone, Copy, Debug, PartialEq, Eq)]
pub struct Record {
    pub data: RecordData,
    pub ttl: u32,
}

/// The code of a response without records.
#[derive(Clone, Copy, Debug, PartialEq, Eq, Structural)]
pub enum ErrorCode {
    FormErr,
    Refused,
    ServFail,
}

/// Where an exchange stands.
#[derive(Clone, Copy, Debug, PartialEq, Eq, Structural)]
pub enum Phase {
    /// The request has come in.
    Received,
    /// The name is being looked up.
    LookingUp,
    /// The addresses are being authorized.
    Injecting,
    /// The response is decided.
    Done,
}

/// What happened.
#[derive(Debug)]
pub enum Event {
    /// The request holds no single query.
    Malformed,
    /// The request asks for a name.
    Query { name: String, query_type: QueryType },
    /// The upstream lookup failed.
    LookupFailed,
    /// The upstream lookup gave these records.
    Resolved(Vec<Record>),
    /// The addresses are authorized.
    Injected,
    /// The addresses could not be authorized.
    InjectionFailed,
}

/// What to do next.
#[derive(Debug)]
pub enum Action {
    /// Send a bare error response (no records).
    ReplyError(ErrorCode),
    /// Look the name up at the upstream.
    Lookup { name: String, query_type: QueryType },
    /// Authorize the resolved addresses.
    Inject(Invocation),
    /// Send the resolved records.
    Answer,
}

/// What happened.
pub enum Happening {
    Malformed,
    Query { name: Seq<char>, query_type: QueryType },
    LookupFailed,
    Resolved(Seq<Record>),
    Injected,
    InjectionFailed,
}

/// What to do next.
#[verifier::ext_equal]
pub enum Deed {
    ReplyError(ErrorCode),
    Lookup { name: Seq<char>, query_type: QueryType },
    Inject(Run),
    Answer,
}

impl View for Event {
    type V = Happening;

    open spec fn view(&self) -> Happening {
        match self {
            Event::Malformed => Happening::Malformed,
            Event::Query { name, query_type } => Happening::Query {
                name: name@,
                query_type: *query_type,
            },
            Event::LookupFailed => Happening::LookupFailed,
            Event::Resolved(records) => Happening::Resolved(records@),
            Event::Injected => Happening::Injected,
            Event::InjectionFailed => Happening::InjectionFailed,
        }
    }
}

impl View for Action {
    type V = Deed;

    open spec fn view(&self) -> Deed {
        match self {
            Action::ReplyError(code) => Deed::ReplyError(*code),
            Action::Lookup { name, query_type } => Deed::Lookup {
                name: name@,
                query_type: *query_type,
            },
            Action::Inject(run) => Deed::Inject(run@),
            Action::Answer => Deed::Answer,
        }
    }
}

/// What every exchange goes by.
pub struct Handler {
    pub patterns: PatternSet,
    pub nft: Nft,
    /// Minimum nft element timeout, regardless of DNS TTL.
    pub ttl_floor_secs: u64,
    /// Maximum nft element timeout.
    pub ttl_ceiling_secs: u64,
}

/// What every exchange goes by.
pub struct Policy {
    pub patterns: Patterns,
    pub nft: Seq<char>,
    pub ttl_floor_secs: u64,
    pub ttl_ceiling_secs: u64,
}

impl View for Handler {
    type V = Policy;

    open spec fn view(&self) -> Policy {
        Policy {
            patterns: self.patterns@,
            nft: self.nft@,
            ttl_floor_secs: self.ttl_floor_secs,
            ttl_ceiling_secs: self.ttl_ceiling_secs,
        }
    }
}

/// The IPv4 addresses among the records.
pub open spec fn v4_addrs(records: Seq<Record>) -> Seq<Ipv4Addr>
    decreases records.len(),
{
    if records.len() == 0 {
        Seq::empty()
    } else {
        let front = v4_addrs(records.drop_last());
        match records.last().data {
            RecordData::A(a) => front.push(a),
            _ => front,
        }
    }
}

/// The IPv6 addresses among the records.
pub open spec fn v6_addrs(records: Seq<Record>) -> Seq<Ipv6Addr>
    decreases records.len(),
{
    if records.len() == 0 {
        Seq::empty()
    } else {
        let front = v6_addrs(records.drop_last());
        match records.last().data {
            RecordData::Aaaa(a) => front.push(a),
            _ => front,
        }
    }
}

/// Some record holds an address.
pub open spec fn has_addrs(records: Seq<Record>) -> bool {
    v4_addrs(records).len() > 0 || v6_addrs(records).len() > 0
}

/// The least TTL of the records that hold an address.
pub open spec fn min_ttl(records: Seq<Record>) -> u32
    decreases records.len(),
{
    if records.len() == 0 {
        u32::MAX
    } else {
        let front = min_ttl(records.drop_last());
        if records.last().data is Other || front <= records.last().ttl {
            front
        } else {
            records.last().ttl
        }
    }
}

/// `ttl`, but no less than `floor` and no more than `ceiling`.
pub open spec fn clamped(ttl: u32, floor: u64, ceiling: u64) -> u64 {
    if ttl < floor {
        floor
    } else if ttl > ceiling {
        ceiling
    } else {
        ttl as u64
    }
}

/// The run that authorizes the addresses of the records.
pub open spec fn injection_of(policy: Policy, records: Seq<Record>) -> Run {
    script_run(
        policy.nft,
        lined(
            injection_lines(
                v4_addrs(records),
                v6_addrs(records),
                clamped(min_ttl(records), policy.ttl_floor_secs, policy.ttl_ceiling_secs),
            ),
        ),
    )
}

/// The event can come in this phase.
pub open spec fn fits(phase: Phase, event: Happening) -> bool {
    match phase {
        Phase::Received => event is Malformed || event is Query,
        Phase::LookingUp => event is LookupFailed || event is Resolved,
        Phase::Injecting => event is Injected || event is InjectionFailed,
        Phase::Done => false,
    }
}

/// The bounds of the timeout are in order wherever a timeout is needed.
pub open spec fn bounds_hold(policy: Policy, event: Happening) -> bool {
    event matches Happening::Resolved(records) ==> (has_addrs(records) ==> policy.ttl_floor_secs
        <= policy.ttl_ceiling_secs)
}

/// What an event leads to.
pub open spec fn next(policy: Policy, event: Happening) -> (Phase, Deed) {
    match event {
        Happening::Malformed => (Phase::Done, Deed::ReplyError(ErrorCode::FormErr)),
        Happening::Query { name, query_type } => if query_type != QueryType::Other && allowed(
            policy.patterns,
            name,
        ) {
            (Phase::LookingUp, Deed::Lookup { name, query_type })
        } else {
            (Phase::Done, Deed::ReplyError(ErrorCode::Refused))
        },
        Happening::LookupFailed => (Phase::Done, Deed::ReplyError(ErrorCode::ServFail)),
        Happening::Resolved(records) => if has_addrs(records) {
            (Phase::Injecting, Deed::Inject(injection_of(policy, records)))
        } else {
            (Phase::Done, Deed::Answer)
        },
        Happening::Injected => (Phase::Done, Deed::Answer),
        Happening::InjectionFailed => (Phase::Done, Deed::ReplyError(ErrorCode::ServFail)),
    }
}

/// The addresses of the records, by family, and the least TTL of those records.
fn addresses(records: &Vec<Record>) -> (r: (Vec<Ipv4Addr>, Vec<Ipv6Addr>, u32))
    ensures
        r.0@ == v4_addrs(records@),
        r.1@ == v6_addrs(records@),
        r.2 == min_ttl(records@),
{
    let mut v4: Vec<Ipv4Addr> = Vec::new();
    let mut v6: Vec<Ipv6Addr> = Vec::new();
    let mut least: u32 = u32::MAX;
    let mut i: usize = 0;
    while i < records.len()
        invariant
            i <= records@.len(),
            v4@ == v4_addrs(records@.take(i as int)),
            v6@ == v6_addrs(records@.take(i as int)),
            least == min_ttl(records@.take(i as int)),
        decreases records@.len() - i,
    {
        assert(records@.take(i + 1).drop_last() == records@.take(i as int));
        assert(records@.take(i + 1).last() == records@[i as int]);
        let record: Record = records[i];
        match record.data {
            RecordData::A(a) => {
                v4.push(a);
                if record.ttl < least {
                    least = record.ttl;
                }
            },
            RecordData::Aaaa(a) => {
                v6.push(a);
                if record.ttl < least {
                    least = record.ttl;
                }
            },
            RecordData::Other => {},
        }
        i = i + 1;
    }
    assert(records@.take(i as int) == records@);
    (v4, v6, least)
}

impl Handler {
    /// The timeout of an element whose record has this TTL.
    pub fn clamp_ttl(&self, ttl: u32) -> (r: u64)
        requires
            self.ttl_floor_secs <= self.ttl_ceiling_secs,
        ensures
            r == clamped(ttl, self.ttl_floor_secs, self.ttl_ceiling_secs),
            self.ttl_floor_secs <= r <= self.ttl_ceiling_secs,
    {
        let ttl: u64 = ttl as u64;
        if ttl < self.ttl_floor_secs {
            self.ttl_floor_secs
        } else if ttl > self.ttl_ceiling_secs {
            self.ttl_ceiling_secs
        } else {
            ttl
        }
    }

    /// Decides what to do about an event of an exchange.
    pub fn handle_request(&self, phase: Phase, event: Event) -> (r: (Phase, Action))
        requires
            fits(phase, event@),
            bounds_hold(self@, event@),
        ensures
            (r.0, r.1@) == next(self@, event@),
    {
        match (phase, event) {
            (Phase::Received, Event::Malformed) => (
                Phase::Done,
                Action::ReplyError(ErrorCode::FormErr),
            ),
            (Phase::Received, Event::Query { name, query_type }) => {
                // We resolve only A/AAAA. Refusing everything else (including SVCB/HTTPS type
                // 65) keeps the nft sets authoritative: clients fall back to A/AAAA, which we
                // control.
                if query_type == QueryType::Other {
                    (Phase::Done, Action::ReplyError(ErrorCode::Refused))
                } else if !self.patterns.is_allowed(name.as_str()) {
                    (Phase::Done, Action::ReplyError(ErrorCode::Refused))
                } else {
                    (Phase::LookingUp, Action::Lookup { name, query_type })
                }
            },
            (Phase::LookingUp, Event::Resolved(records)) => {
                let (v4, v6, ttl): (Vec<Ipv4Addr>, Vec<Ipv6Addr>, u32) = addresses(&records);
                if v4.len() == 0 && v6.len() == 0 {
                    return (Phase::Done, Action::Answer);
                }
                let timeout: u64 = self.clamp_ttl(ttl);
                match self.nft.add_addrs(v4.as_slice(), v6.as_slice(), timeout) {
                    Some(run) => (Phase::Injecting, Action::Inject(run)),
                    None => (Phase::Done, Action::Answer),
                }
            },
            // The IPs are now authorized.
            (Phase::Injecting, Event::Injected) => (Phase::Done, Action::Answer),
            // Fail closed: an answer we can't authorize would be dropped anyway, and SERVFAIL is
            // a clearer signal than handing back unreachable IPs.
            _ => (Phase::Done, Action::ReplyError(ErrorCode::ServFail)),
        }
    }
}

} // verus!
