//! What holds of every exchange.

use vstd::prelude::*;

use crate::addr::{v4_text, v6_text};
use crate::config::allowed;
use crate::dns::{
    bounds_hold, clamped, fits, has_addrs, injection_of, min_ttl, next, v4_addrs, v6_addrs,
    Deed, ErrorCode, Handler, Happening, Phase, Policy, QueryType, Record, RecordData,
};
use crate::nft::injection_lines;
use crate::nft_line_laws::{injection_names_v4_address, injection_names_v6_address};
use crate::nft_text_laws::occurs;
use crate::text::{decimal, lined};

verus! {

/// Where an exchange stands before its event `i`.
pub open spec fn phase_before(policy: Policy, events: Seq<Happening>, i: int) -> Phase {
    if i == 0 {
        Phase::Received
    } else {
        next(policy, events[i - 1]).0
    }
}

/// What the event `i` of an exchange leads to.
pub open spec fn deed_of(policy: Policy, events: Seq<Happening>, i: int) -> Deed {
    next(policy, events[i]).1
}

/// Each event reports what came of the action before it.
pub open spec fn is_exchange(policy: Policy, events: Seq<Happening>) -> bool {
    forall|i: int|
        0 <= i < events.len() ==> fits(#[trigger] phase_before(policy, events, i), events[i])
}

/// An exchange has at most three events.
pub proof fn exchange_is_short(policy: Policy, events: Seq<Happening>)
    requires
        is_exchange(policy, events),
    ensures
        events.len() <= 3,
{
    if events.len() > 3 {
        assert(fits(phase_before(policy, events, 0), events[0]));
        assert(fits(phase_before(policy, events, 1), events[1]));
        assert(fits(phase_before(policy, events, 2), events[2]));
        assert(fits(phase_before(policy, events, 3), events[3]));
    }
}

/// Injecting comes before responding: records are sent only for an allowed name, and only once
/// every address among them is authorized.
pub proof fn answers_are_authorized(policy: Policy, events: Seq<Happening>, i: int)
    requires
        is_exchange(policy, events),
        0 <= i < events.len(),
        deed_of(policy, events, i) is Answer,
    ensures
        events[0] matches Happening::Query { name, query_type } && allowed(policy.patterns, name)
            && query_type != QueryType::Other,
        events[1] matches Happening::Resolved(records) && (if has_addrs(records) {
            &&& i == 2
            &&& deed_of(policy, events, 1) == Deed::Inject(injection_of(policy, records))
            &&& events[2] is Injected
        } else {
            i == 1
        }),
{
    exchange_is_short(policy, events);
    assert(fits(phase_before(policy, events, 0), events[0]));
    if i >= 1 {
        assert(fits(phase_before(policy, events, 1), events[1]));
    }
    if i >= 2 {
        assert(fits(phase_before(policy, events, 2), events[2]));
    }
}

/// Only allowed names are looked up, and only for addresses.
pub proof fn only_allowed_names_are_looked_up(policy: Policy, events: Seq<Happening>, i: int)
    requires
        is_exchange(policy, events),
        0 <= i < events.len(),
    ensures
        deed_of(policy, events, i) matches Deed::Lookup { name, query_type } ==> {
            &&& i == 0
            &&& events[0] == (Happening::Query { name, query_type })
            &&& allowed(policy.patterns, name)
            &&& query_type == QueryType::A || query_type == QueryType::Aaaa
        },
{
    exchange_is_short(policy, events);
    assert(fits(phase_before(policy, events, 0), events[0]));
    if i >= 1 {
        assert(fits(phase_before(policy, events, 1), events[1]));
    }
    if i >= 2 {
        assert(fits(phase_before(policy, events, 2), events[2]));
    }
}

/// Only what an allowed name resolved to is authorized.
pub proof fn only_allowed_names_authorize(policy: Policy, events: Seq<Happening>, i: int)
    requires
        is_exchange(policy, events),
        0 <= i < events.len(),
    ensures
        deed_of(policy, events, i) matches Deed::Inject(run) ==> {
            &&& i == 1
            &&& events[0] matches Happening::Query { name, query_type }
            &&& allowed(policy.patterns, name)
            &&& query_type != QueryType::Other
            &&& events[1] matches Happening::Resolved(records)
            &&& run == injection_of(policy, records)
        },
{
    exchange_is_short(policy, events);
    assert(fits(phase_before(policy, events, 0), events[0]));
    if i >= 1 {
        assert(fits(phase_before(policy, events, 1), events[1]));
    }
    if i >= 2 {
        assert(fits(phase_before(policy, events, 2), events[2]));
    }
}

/// Unlisted names are refused at once, whatever is asked of them.
pub proof fn unlisted_names_are_refused(policy: Policy, name: Seq<char>, query_type: QueryType)
    requires
        !allowed(policy.patterns, name),
    ensures
        next(policy, Happening::Query { name, query_type }) == (
            Phase::Done,
            Deed::ReplyError(ErrorCode::Refused),
        ),
{
}

/// Every exchange has one response, and it is the last thing done.
pub proof fn one_response_comes_last(policy: Policy, events: Seq<Happening>, i: int)
    requires
        is_exchange(policy, events),
        0 <= i < events.len(),
        deed_of(policy, events, i) is ReplyError || deed_of(policy, events, i) is Answer,
    ensures
        i == events.len() - 1,
        next(policy, events[i]).0 == Phase::Done,
{
    if i + 1 < events.len() {
        assert(fits(phase_before(policy, events, i + 1), events[i + 1]));
    }
}

/// It fails closed: after a failed lookup or a failed injection the answer is SERVFAIL, and no
/// records are sent.
pub proof fn failures_are_not_answered(policy: Policy, events: Seq<Happening>, i: int, j: int)
    requires
        is_exchange(policy, events),
        0 <= i < events.len(),
        0 <= j < events.len(),
        events[i] is LookupFailed || events[i] is InjectionFailed,
    ensures
        deed_of(policy, events, i) == Deed::ReplyError(ErrorCode::ServFail),
        !(deed_of(policy, events, j) is Answer),
{
    one_response_comes_last(policy, events, i);
    if deed_of(policy, events, j) is Answer {
        one_response_comes_last(policy, events, j);
    }
}

/// The addresses to authorize are those of the records: each address record gives its address.
pub proof fn every_address_is_collected(records: Seq<Record>, i: int)
    requires
        0 <= i < records.len(),
    ensures
        records[i].data matches RecordData::A(a) ==> v4_addrs(records).contains(a),
        records[i].data matches RecordData::Aaaa(a) ==> v6_addrs(records).contains(a),
    decreases records.len(),
{
    let front = records.drop_last();
    let v4 = v4_addrs(records);
    let v6 = v6_addrs(records);
    if i < front.len() {
        every_address_is_collected(front, i);
        assert(front[i] == records[i]);
        if let RecordData::A(a) = records[i].data {
            let k = choose|k: int| 0 <= k < v4_addrs(front).len() && v4_addrs(front)[k] == a;
            assert(v4[k] == a);
        }
        if let RecordData::Aaaa(a) = records[i].data {
            let k = choose|k: int| 0 <= k < v6_addrs(front).len() && v6_addrs(front)[k] == a;
            assert(v6[k] == a);
        }
    } else {
        if let RecordData::A(a) = records[i].data {
            assert(v4.last() == a);
        }
        if let RecordData::Aaaa(a) = records[i].data {
            assert(v6.last() == a);
        }
    }
}

/// Nothing else is authorized: each address comes from an address record.
pub proof fn only_resolved_addresses_are_collected(records: Seq<Record>)
    ensures
        forall|k: int|
            0 <= k < v4_addrs(records).len() ==> exists|i: int|
                0 <= i < records.len() && (#[trigger] records[i]).data == RecordData::A(
                    #[trigger] v4_addrs(records)[k],
                ),
        forall|k: int|
            0 <= k < v6_addrs(records).len() ==> exists|i: int|
                0 <= i < records.len() && (#[trigger] records[i]).data == RecordData::Aaaa(
                    #[trigger] v6_addrs(records)[k],
                ),
    decreases records.len(),
{
    if records.len() > 0 {
        let front = records.drop_last();
        let last = records.len() - 1;
        only_resolved_addresses_are_collected(front);
        assert forall|k: int| 0 <= k < v4_addrs(records).len() implies exists|i: int|
            0 <= i < records.len() && (#[trigger] records[i]).data == RecordData::A(
                #[trigger] v4_addrs(records)[k],
            ) by {
            if k < v4_addrs(front).len() {
                assert(v4_addrs(front)[k] == v4_addrs(records)[k]);
                let i = choose|i: int|
                    0 <= i < front.len() && (#[trigger] front[i]).data == RecordData::A(
                        v4_addrs(front)[k],
                    );
                assert(records[i] == front[i]);
            } else {
                assert(records[last].data == RecordData::A(v4_addrs(records)[k]));
            }
        }
        assert forall|k: int| 0 <= k < v6_addrs(records).len() implies exists|i: int|
            0 <= i < records.len() && (#[trigger] records[i]).data == RecordData::Aaaa(
                #[trigger] v6_addrs(records)[k],
            ) by {
            if k < v6_addrs(front).len() {
                assert(v6_addrs(front)[k] == v6_addrs(records)[k]);
                let i = choose|i: int|
                    0 <= i < front.len() && (#[trigger] front[i]).data == RecordData::Aaaa(
                        v6_addrs(front)[k],
                    );
                assert(records[i] == front[i]);
            } else {
                assert(records[last].data == RecordData::Aaaa(v6_addrs(records)[k]));
            }
        }
    }
}

/// The timeout follows the DNS TTL: it lies between the bounds, and where the least TTL of the
/// address records does, it is that.
pub proof fn timeout_follows_the_ttl(records: Seq<Record>, floor: u64, ceiling: u64)
    requires
        floor <= ceiling,
    ensures
        floor <= clamped(min_ttl(records), floor, ceiling) <= ceiling,
        floor <= min_ttl(records) <= ceiling ==> clamped(min_ttl(records), floor, ceiling)
            == min_ttl(records),
        forall|i: int|
            0 <= i < records.len() && !((#[trigger] records[i]).data is Other) ==> min_ttl(records)
                <= records[i].ttl,
    decreases records.len(),
{
    if records.len() > 0 {
        let front = records.drop_last();
        timeout_follows_the_ttl(front, floor, ceiling);
        assert forall|i: int|
            0 <= i < records.len() && !((#[trigger] records[i]).data is Other) implies min_ttl(
            records,
        ) <= records[i].ttl by {
            if i < front.len() {
                assert(front[i] == records[i]);
            }
        }
    }
}

/// Allowed names are looked up: a query for the addresses of an allowed name, of either family,
/// goes to the upstream as it was asked.
pub proof fn allowed_names_are_looked_up(policy: Policy, name: Seq<char>, query_type: QueryType)
    requires
        query_type == QueryType::A || query_type == QueryType::Aaaa,
        allowed(policy.patterns, name),
    ensures
        next(policy, Happening::Query { name, query_type }) == (
            Phase::LookingUp,
            Deed::Lookup { name, query_type },
        ),
{
}

/// Queries for anything but addresses are refused, whatever the name; a request without a single
/// query is malformed.
pub proof fn other_requests_are_refused(policy: Policy, name: Seq<char>)
    ensures
        next(policy, Happening::Query { name, query_type: QueryType::Other }) == (
            Phase::Done,
            Deed::ReplyError(ErrorCode::Refused),
        ),
        next(policy, Happening::Malformed) == (Phase::Done, Deed::ReplyError(ErrorCode::FormErr)),
{
}

/// The record holds an address.
pub open spec fn is_address(record: Record) -> bool {
    record.data is A || record.data is Aaaa
}

/// A lookup that gave an address leads to an injection, and one that gave none to the answer; and
/// once the addresses are authorized, the answer follows.
pub proof fn answers_follow_lookups(policy: Policy, records: Seq<Record>)
    ensures
        (exists|i: int| 0 <= i < records.len() && is_address(#[trigger] records[i])) ==> {
            &&& next(policy, Happening::Resolved(records)).0 == Phase::Injecting
            &&& next(policy, Happening::Resolved(records)).1 is Inject
        },
        (forall|i: int| 0 <= i < records.len() ==> !is_address(#[trigger] records[i])) ==> next(
            policy,
            Happening::Resolved(records),
        ) == (Phase::Done, Deed::Answer),
        next(policy, Happening::Injected) == (Phase::Done, Deed::Answer),
{
    if exists|i: int| 0 <= i < records.len() && is_address(#[trigger] records[i]) {
        let i = choose|i: int| 0 <= i < records.len() && is_address(#[trigger] records[i]);
        every_address_is_collected(records, i);
    } else {
        only_resolved_addresses_are_collected(records);
        if v4_addrs(records).len() > 0 {
            let a = v4_addrs(records)[0];
            let i = choose|i: int|
                0 <= i < records.len() && (#[trigger] records[i]).data == RecordData::A(a);
            assert(is_address(records[i]));
        }
        if v6_addrs(records).len() > 0 {
            let a = v6_addrs(records)[0];
            let i = choose|i: int|
                0 <= i < records.len() && (#[trigger] records[i]).data == RecordData::Aaaa(a);
            assert(is_address(records[i]));
        }
    }
}

/// The least TTL is that of an address record, and none of them has less.
proof fn least_ttl_is_one_of_them(records: Seq<Record>, i: int) -> (k: int)
    requires
        0 <= i < records.len(),
        is_address(records[i]),
    ensures
        0 <= k < records.len(),
        is_address(records[k]),
        min_ttl(records) == records[k].ttl,
        min_ttl(records) <= records[i].ttl,
    decreases records.len(),
{
    let front = records.drop_last();
    let last = records.len() - 1;
    timeout_follows_the_ttl(records, 0, 0);
    if min_ttl(records) == records[last].ttl && is_address(records[last]) {
        last
    } else if i < front.len() {
        assert(front[i] == records[i]);
        let k = least_ttl_is_one_of_them(front, i);
        assert(front[k] == records[k]);
        k
    } else if front.len() == 0 {
        last
    } else {
        assert(records[last].ttl >= min_ttl(front));
        assert(min_ttl(front) == min_ttl(records));
        if exists|j: int| 0 <= j < front.len() && is_address(#[trigger] front[j]) {
            let j = choose|j: int| 0 <= j < front.len() && is_address(#[trigger] front[j]);
            let k = least_ttl_is_one_of_them(front, j);
            assert(front[k] == records[k]);
            k
        } else {
            no_address_no_ttl(front);
            last
        }
    }
}

/// Without addresses the least TTL is the greatest number.
proof fn no_address_no_ttl(records: Seq<Record>)
    requires
        forall|i: int| 0 <= i < records.len() ==> !is_address(#[trigger] records[i]),
    ensures
        min_ttl(records) == u32::MAX,
    decreases records.len(),
{
    if records.len() > 0 {
        let front = records.drop_last();
        assert forall|i: int| 0 <= i < front.len() implies !is_address(#[trigger] front[i]) by {
            assert(front[i] == records[i]);
        }
        no_address_no_ttl(front);
        assert(!is_address(records[records.len() - 1]));
    }
}

/// `timeout` is the least TTL of the address records, raised to `floor` or lowered to `ceiling`.
pub open spec fn is_timeout(records: Seq<Record>, floor: u64, ceiling: u64, timeout: u64) -> bool {
    exists|k: int|
        {
            &&& 0 <= k < records.len()
            &&& is_address(#[trigger] records[k])
            &&& forall|j: int|
                0 <= j < records.len() && is_address(#[trigger] records[j]) ==> records[k].ttl
                    <= records[j].ttl
            &&& records[k].ttl < floor ==> timeout == floor
            &&& records[k].ttl > ceiling ==> timeout == ceiling
            &&& floor <= records[k].ttl <= ceiling ==> timeout == records[k].ttl
        }
}

/// Every resolved address is authorized, for as long as the least TTL among the addresses says
/// within the bounds: the injection that follows a lookup feeds `nft -f -` a script that holds
/// the address with that timeout.
pub proof fn every_resolved_address_is_authorized(policy: Policy, records: Seq<Record>, i: int)
    requires
        0 <= i < records.len(),
        is_address(records[i]),
        policy.ttl_floor_secs <= policy.ttl_ceiling_secs,
    ensures
        ({
            let timeout = clamped(min_ttl(records), policy.ttl_floor_secs, policy.ttl_ceiling_secs);
            let deed = next(policy, Happening::Resolved(records)).1;
            &&& is_timeout(records, policy.ttl_floor_secs, policy.ttl_ceiling_secs, timeout)
            &&& deed is Inject
            &&& deed->Inject_0.program == policy.nft
            &&& deed->Inject_0.args == seq!["-f"@, "-"@]
            &&& deed->Inject_0.stdin == Some(
                lined(injection_lines(v4_addrs(records), v6_addrs(records), timeout)),
            )
            &&& records[i].data matches RecordData::A(a) ==> occurs(
                deed->Inject_0.stdin->0,
                v4_text(a) + " timeout "@ + decimal(timeout as nat) + "s"@,
            )
            &&& records[i].data matches RecordData::Aaaa(a) ==> occurs(
                deed->Inject_0.stdin->0,
                v6_text(a) + " timeout "@ + decimal(timeout as nat) + "s"@,
            )
        }),
{
    let timeout = clamped(min_ttl(records), policy.ttl_floor_secs, policy.ttl_ceiling_secs);
    let k = least_ttl_is_one_of_them(records, i);
    timeout_follows_the_ttl(records, policy.ttl_floor_secs, policy.ttl_ceiling_secs);
    assert forall|j: int| 0 <= j < records.len() && is_address(#[trigger] records[j]) implies
        records[k].ttl <= records[j].ttl by {}
    assert(is_timeout(records, policy.ttl_floor_secs, policy.ttl_ceiling_secs, timeout));
    every_address_is_collected(records, i);
    answers_follow_lookups(policy, records);
    let v4 = v4_addrs(records);
    let v6 = v6_addrs(records);
    if let RecordData::A(a) = records[i].data {
        let j = choose|j: int| 0 <= j < v4.len() && v4[j] == a;
        injection_names_v4_address(v4, v6, timeout, j);
    }
    if let RecordData::Aaaa(a) = records[i].data {
        let j = choose|j: int| 0 <= j < v6.len() && v6[j] == a;
        injection_names_v6_address(v4, v6, timeout, j);
    }
}

/// The addresses of records after records are those of both, in order; each record gives its
/// address once.
pub proof fn addresses_add_up(a: Seq<Record>, b: Seq<Record>, r: Record)
    ensures
        v4_addrs(a + b) == v4_addrs(a) + v4_addrs(b),
        v6_addrs(a + b) == v6_addrs(a) + v6_addrs(b),
        v4_addrs(seq![r]) == (match r.data {
            RecordData::A(x) => seq![x],
            _ => Seq::empty(),
        }),
        v6_addrs(seq![r]) == (match r.data {
            RecordData::Aaaa(x) => seq![x],
            _ => Seq::empty(),
        }),
    decreases b.len(),
{
    assert(seq![r].drop_last() =~= Seq::<Record>::empty());
    reveal_with_fuel(v4_addrs, 2);
    reveal_with_fuel(v6_addrs, 2);
    if b.len() == 0 {
        assert(a + b =~= a);
    } else {
        addresses_add_up(a, b.drop_last(), r);
        assert((a + b).drop_last() =~= a + b.drop_last());
        assert((a + b).last() == b.last());
    }
}

/// A request comes first, what came of the lookup next, and what came of the authorization last;
/// whatever comes then, each can be told, and nothing comes once the response is decided.
pub proof fn events_come_in_their_phases(
    name: Seq<char>,
    query_type: QueryType,
    records: Seq<Record>,
    event: Happening,
)
    ensures
        fits(Phase::Received, Happening::Malformed),
        fits(Phase::Received, Happening::Query { name, query_type }),
        fits(Phase::LookingUp, Happening::LookupFailed),
        fits(Phase::LookingUp, Happening::Resolved(records)),
        fits(Phase::Injecting, Happening::Injected),
        fits(Phase::Injecting, Happening::InjectionFailed),
        !fits(Phase::Done, event),
        !(fits(Phase::Received, event) && fits(Phase::LookingUp, event)),
        !(fits(Phase::Received, event) && fits(Phase::Injecting, event)),
        !(fits(Phase::LookingUp, event) && fits(Phase::Injecting, event)),
{
}

/// Every event can be decided if the bounds of the timeout are in order, and one that authorizes
/// nothing needs no bounds.
pub proof fn bounds_are_needed_for_addresses_alone(policy: Policy, event: Happening)
    ensures
        policy.ttl_floor_secs <= policy.ttl_ceiling_secs ==> bounds_hold(policy, event),
        !(next(policy, event).1 is Inject) ==> bounds_hold(policy, event),
{
}

/// What an exchange goes by is what its handler holds.
pub proof fn policy_is_what_the_handler_holds(handler: Handler)
    ensures
        handler@.patterns == handler.patterns@,
        handler@.nft == handler.nft@,
        handler@.ttl_floor_secs == handler.ttl_floor_secs,
        handler@.ttl_ceiling_secs == handler.ttl_ceiling_secs,
{
}

} // verus!
