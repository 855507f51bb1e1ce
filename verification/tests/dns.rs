use castellan::addr::{Ipv4Addr, Ipv6Addr};
use castellan::config::PatternSet;
use castellan::dns::{Action, ErrorCode, Event, Handler, Phase, QueryType, Record, RecordData};
use castellan::nft::Nft;

fn handler() -> Handler {
    Handler {
        patterns: PatternSet::parse("api.anthropic.com\n.sentry.io\n").unwrap(),
        nft: Nft::default(),
        ttl_floor_secs: 120,
        ttl_ceiling_secs: 3600,
    }
}

fn query(name: &str, query_type: QueryType) -> Event {
    Event::Query { name: name.to_string(), query_type }
}

fn a(octets: [u8; 4], ttl: u32) -> Record {
    Record { data: RecordData::A(Ipv4Addr { octets }), ttl }
}

fn aaaa(segments: [u16; 8], ttl: u32) -> Record {
    Record { data: RecordData::Aaaa(Ipv6Addr { segments }), ttl }
}

fn other(ttl: u32) -> Record {
    Record { data: RecordData::Other, ttl }
}

/// The code of an error response that ends the exchange.
fn code(r: (Phase, Action)) -> ErrorCode {
    match r {
        (Phase::Done, Action::ReplyError(code)) => code,
        other => panic!("{:?}", other),
    }
}

/// The script that an injection runs.
fn injected(r: (Phase, Action)) -> String {
    match r {
        (Phase::Injecting, Action::Inject(run)) => {
            assert_eq!(run.program, "nft");
            assert_eq!(run.args, ["-f", "-"]);
            run.stdin.unwrap()
        }
        other => panic!("{:?}", other),
    }
}

#[test]
fn malformed_requests_are_form_errors() {
    let h = handler();
    assert_eq!(code(h.handle_request(Phase::Received, Event::Malformed)), ErrorCode::FormErr);
}

#[test]
fn other_query_types_are_refused() {
    let h = handler();
    let e = query("api.anthropic.com.", QueryType::Other);
    assert_eq!(code(h.handle_request(Phase::Received, e)), ErrorCode::Refused);
}

#[test]
fn unlisted_queries_are_refused() {
    let h = handler();
    for t in [QueryType::A, QueryType::Aaaa, QueryType::Other] {
        let e = query("evil.com.", t);
        assert_eq!(code(h.handle_request(Phase::Received, e)), ErrorCode::Refused);
    }
}

#[test]
fn allowed_names_are_looked_up() {
    let h = handler();
    match h.handle_request(Phase::Received, query("API.anthropic.com.", QueryType::Aaaa)) {
        (Phase::LookingUp, Action::Lookup { name, query_type }) => {
            assert_eq!(name, "API.anthropic.com.");
            assert_eq!(query_type, QueryType::Aaaa);
        }
        other => panic!("{:?}", other),
    }
}

#[test]
fn failed_lookups_and_injections_are_servfail() {
    let h = handler();
    assert_eq!(code(h.handle_request(Phase::LookingUp, Event::LookupFailed)), ErrorCode::ServFail);
    let r = h.handle_request(Phase::Injecting, Event::InjectionFailed);
    assert_eq!(code(r), ErrorCode::ServFail);
}

#[test]
fn addresses_are_injected_before_the_answer() {
    let h = handler();
    let records = vec![
        other(5),
        a([1, 2, 3, 4], 400),
        aaaa([0x2001, 0xdb8, 0, 0, 0, 0, 0, 1], 300),
        a([5, 6, 7, 8], 500),
    ];
    assert_eq!(
        injected(h.handle_request(Phase::LookingUp, Event::Resolved(records))),
        "add element inet castellan allowed_v4 { 1.2.3.4 timeout 300s, 5.6.7.8 timeout 300s }\n\
         add element inet castellan allowed_v6 { 2001:db8::1 timeout 300s }\n"
    );
    match h.handle_request(Phase::Injecting, Event::Injected) {
        (Phase::Done, Action::Answer) => {}
        other => panic!("{:?}", other),
    }
}

#[test]
fn answers_without_addresses_need_no_injection() {
    let mut h = handler();
    h.ttl_floor_secs = 7200;
    for records in [vec![], vec![other(60)]] {
        match h.handle_request(Phase::LookingUp, Event::Resolved(records)) {
            (Phase::Done, Action::Answer) => {}
            other => panic!("{:?}", other),
        }
    }
}

#[test]
fn timeouts_are_clamped() {
    let h = handler();
    assert_eq!(h.clamp_ttl(0), 120);
    assert_eq!(h.clamp_ttl(120), 120);
    assert_eq!(h.clamp_ttl(300), 300);
    assert_eq!(h.clamp_ttl(3600), 3600);
    assert_eq!(h.clamp_ttl(u32::MAX), 3600);
    let records = vec![a([1, 2, 3, 4], 10)];
    assert!(injected(h.handle_request(Phase::LookingUp, Event::Resolved(records)))
        .contains("1.2.3.4 timeout 120s"));
}
