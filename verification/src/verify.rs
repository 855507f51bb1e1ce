//! `verify`: end-to-end sanity checks run at the tail of bootstrap. A failure of any of them
//! fails the whole, so a broken firewall fails loudly instead of leaving a silently-broken
//! container.

use vstd::prelude::*;

use crate::nft::{Invocation, Run};
use crate::nft_line_laws::{occurs_in_itself, occurs_in_part};
use crate::nft_text_laws::occurs;
use crate::setup::READY_PATH;
use crate::text::{begins, chars_of, push_str, push_string, string_of};

verus! {

/// A check and what came of it.
#[derive(Debug)]
pub enum Check {
    /// Daemon liveness: the readiness file must exist.
    Ready { present: bool },
    /// A host that must be unreachable.
    Blocked { host: String, reached: bool },
    /// A host that must be reachable.
    Allowed { host: String, reached: bool },
}

/// A check and what came of it.
pub enum Finding {
    Ready { present: bool },
    Blocked { host: Seq<char>, reached: bool },
    Allowed { host: Seq<char>, reached: bool },
}

impl View for Check {
    type V = Finding;

    open spec fn view(&self) -> Finding {
        match self {
            Check::Ready { present } => Finding::Ready { present: *present },
            Check::Blocked { host, reached } => Finding::Blocked { host: host@, reached: *reached },
            Check::Allowed { host, reached } => Finding::Allowed { host: host@, reached: *reached },
        }
    }
}

/// The expectation holds.
pub open spec fn passes(f: Finding) -> bool {
    match f {
        Finding::Ready { present } => present,
        Finding::Blocked { host, reached } => !reached,
        Finding::Allowed { host, reached } => reached,
    }
}

/// What is logged of a check.
pub open spec fn message_of(f: Finding) -> Seq<char> {
    match f {
        Finding::Ready { present: true } => "OK: resolver readiness file present"@,
        Finding::Ready { present: false } => "FAIL: resolver readiness file "@ + READY_PATH@
            + " missing — daemon not up?"@,
        Finding::Blocked { host, reached: true } => "FAIL: reached blocked host "@ + host
            + " (should be denied)"@,
        Finding::Blocked { host, reached: false } => "OK: blocked host "@ + host
            + " is unreachable as expected"@,
        Finding::Allowed { host, reached: true } => "OK: allowed host "@ + host
            + " is reachable"@,
        Finding::Allowed { host, reached: false } => "FAIL: could not reach allowed host "@ + host,
    }
}

/// The findings of a list of checks.
pub open spec fn findings(checks: Seq<Check>) -> Seq<Finding> {
    Seq::new(checks.len(), |i: int| checks[i]@)
}

/// How many expectations are violated.
pub open spec fn failures(f: Seq<Finding>) -> nat
    decreases f.len(),
{
    if f.len() == 0 {
        0
    } else {
        failures(f.drop_last()) + if passes(f.last()) {
            0nat
        } else {
            1nat
        }
    }
}

/// Puts a text between two others.
fn between(a: &str, b: &str, c: &str) -> (out: String)
    ensures
        out@ == a@ + b@ + c@,
{
    let mut out: Vec<char> = chars_of(a);
    push_str(&mut out, b);
    push_str(&mut out, c);
    string_of(out.as_slice())
}

impl Check {
    /// Whether the expectation holds.
    pub fn passed(&self) -> (r: bool)
        ensures
            r == passes(self@),
    {
        match self {
            Check::Ready { present } => *present,
            Check::Blocked { host: _, reached } => !*reached,
            Check::Allowed { host: _, reached } => *reached,
        }
    }

    /// What to log.
    pub fn message(&self) -> (r: String)
        ensures
            r@ == message_of(self@),
    {
        match self {
            Check::Ready { present } => if *present {
                "OK: resolver readiness file present".to_owned()
            } else {
                between("FAIL: resolver readiness file ", READY_PATH, " missing — daemon not up?")
            },
            Check::Blocked { host, reached } => if *reached {
                between("FAIL: reached blocked host ", host.as_str(), " (should be denied)")
            } else {
                between("OK: blocked host ", host.as_str(), " is unreachable as expected")
            },
            Check::Allowed { host, reached } => if *reached {
                between("OK: allowed host ", host.as_str(), " is reachable")
            } else {
                let mut out: Vec<char> = chars_of("FAIL: could not reach allowed host ");
                push_str(&mut out, host.as_str());
                string_of(out.as_slice())
            },
        }
    }
}

/// A host, and whether it was reached.
#[derive(Clone, Debug)]
pub struct Probe {
    pub host: String,
    pub reached: bool,
}

/// What is found of hosts that must be unreachable.
pub open spec fn blocked_findings(probes: Seq<Probe>) -> Seq<Finding> {
    Seq::new(
        probes.len(),
        |i: int| Finding::Blocked { host: probes[i].host@, reached: probes[i].reached },
    )
}

/// What is found of hosts that must be reachable.
pub open spec fn allowed_findings(probes: Seq<Probe>) -> Seq<Finding> {
    Seq::new(
        probes.len(),
        |i: int| Finding::Allowed { host: probes[i].host@, reached: probes[i].reached },
    )
}

/// What is found in all.
pub open spec fn all_findings(ready: bool, blocked: Seq<Probe>, allowed: Seq<Probe>) -> Seq<
    Finding,
> {
    seq![Finding::Ready { present: ready }] + blocked_findings(blocked) + allowed_findings(allowed)
}

/// List the checks: the readiness file must exist, `blocked` hosts must be unreachable, and
/// `allowed` hosts must be reachable.
pub fn checks(ready: bool, blocked: &Vec<Probe>, allowed: &Vec<Probe>) -> (out: Vec<Check>)
    ensures
        findings(out@) == all_findings(ready, blocked@, allowed@),
{
    let mut out: Vec<Check> = Vec::new();
    out.push(Check::Ready { present: ready });
    let ghost first = seq![Finding::Ready { present: ready }];
    assert(findings(out@) =~= first + blocked_findings(blocked@).take(0));
    let mut i: usize = 0;
    while i < blocked.len()
        invariant
            i <= blocked@.len(),
            findings(out@) == first + blocked_findings(blocked@).take(i as int),
        decreases blocked@.len() - i,
    {
        let ghost before = out@;
        out.push(Check::Blocked { host: blocked[i].host.clone(), reached: blocked[i].reached });
        assert(findings(out@) =~= findings(before).push(blocked_findings(blocked@)[i as int]));
        assert(blocked_findings(blocked@).take(i + 1) =~= blocked_findings(blocked@).take(
            i as int,
        ).push(blocked_findings(blocked@)[i as int]));
        i = i + 1;
    }
    let ghost second = first + blocked_findings(blocked@);
    assert(blocked_findings(blocked@).take(i as int) =~= blocked_findings(blocked@));
    assert(findings(out@) =~= second + allowed_findings(allowed@).take(0));
    let mut i: usize = 0;
    while i < allowed.len()
        invariant
            i <= allowed@.len(),
            findings(out@) == second + allowed_findings(allowed@).take(i as int),
        decreases allowed@.len() - i,
    {
        let ghost before = out@;
        out.push(Check::Allowed { host: allowed[i].host.clone(), reached: allowed[i].reached });
        assert(findings(out@) =~= findings(before).push(allowed_findings(allowed@)[i as int]));
        assert(allowed_findings(allowed@).take(i + 1) =~= allowed_findings(allowed@).take(
            i as int,
        ).push(allowed_findings(allowed@)[i as int]));
        i = i + 1;
    }
    assert(allowed_findings(allowed@).take(i as int) =~= allowed_findings(allowed@));
    out
}

/// Run verification. `blocked` hosts must be unreachable; `allowed` hosts must be
/// reachable. Returns how many expectations are violated if any is.
pub fn run(ready: bool, blocked: &Vec<Probe>, allowed: &Vec<Probe>) -> (r: Result<(), usize>)
    ensures
        ({
            let n = failures(all_findings(ready, blocked@, allowed@));
            match r {
                Ok(()) => n == 0,
                Err(count) => count == n && n > 0,
            }
        }),
{
    let list: Vec<Check> = checks(ready, blocked, allowed);
    let ghost all = findings(list@);
    let mut count: usize = 0;
    let mut i: usize = 0;
    while i < list.len()
        invariant
            i <= list@.len(),
            count <= i,
            all == findings(list@),
            count == failures(all.take(i as int)),
        decreases list@.len() - i,
    {
        assert(all.take(i + 1).drop_last() == all.take(i as int));
        assert(all.take(i + 1).last() == list@[i as int]@);
        if !list[i].passed() {
            count = count + 1;
        }
        i = i + 1;
    }
    assert(all.take(i as int) == all);
    if count > 0 {
        Err(count)
    } else {
        Ok(())
    }
}

/// The run that tries to connect to `host`.
pub open spec fn reach_run(host: Seq<char>) -> Run {
    Run {
        program: "curl"@,
        args: seq![
            "--connect-timeout"@,
            "5"@,
            "-sS"@,
            "-o"@,
            "/dev/null"@,
            "https://"@ + host,
        ],
        stdin: None,
    }
}

/// The run that succeeds exactly if an HTTPS connection to `host` can be established within 5s.
pub fn can_reach(host: &str) -> (r: Invocation)
    ensures
        r@ == (Run {
            program: "curl"@,
            args: seq![
                "--connect-timeout"@,
                "5"@,
                "-sS"@,
                "-o"@,
                "/dev/null"@,
                "https://"@ + host@,
            ],
            stdin: None,
        }),
        r@ == reach_run(host@),
{
    let mut args: Vec<String> = Vec::new();
    push_string(&mut args, "--connect-timeout");
    push_string(&mut args, "5");
    push_string(&mut args, "-sS");
    push_string(&mut args, "-o");
    push_string(&mut args, "/dev/null");
    let mut url: Vec<char> = chars_of("https://");
    push_str(&mut url, host);
    push_string(&mut args, string_of(url.as_slice()).as_str());
    Invocation { program: "curl".to_owned(), args, stdin: None }
}

/// Nothing fails exactly if every expectation holds.
proof fn none_fails_iff_all_pass(f: Seq<Finding>)
    ensures
        failures(f) == 0 <==> forall|i: int| 0 <= i < f.len() ==> passes(#[trigger] f[i]),
    decreases f.len(),
{
    if f.len() > 0 {
        let front = f.drop_last();
        none_fails_iff_all_pass(front);
        if failures(f) == 0 {
            assert forall|i: int| 0 <= i < f.len() implies passes(#[trigger] f[i]) by {
                if i < front.len() {
                    assert(f[i] == front[i]);
                }
            }
        }
        if forall|i: int| 0 <= i < f.len() ==> passes(#[trigger] f[i]) {
            assert forall|i: int| 0 <= i < front.len() implies passes(#[trigger] front[i]) by {
                assert(f[i] == front[i]);
            }
            assert(passes(f[f.len() - 1]));
        }
    }
}

/// Verification passes exactly if the readiness file is present, no blocked host was reached, and
/// every allowed host was reached.
pub proof fn passes_iff_every_expectation_holds(
    ready: bool,
    blocked: Seq<Probe>,
    allowed: Seq<Probe>,
)
    ensures
        failures(all_findings(ready, blocked, allowed)) == 0 <==> {
            &&& ready
            &&& forall|i: int| 0 <= i < blocked.len() ==> !(#[trigger] blocked[i]).reached
            &&& forall|i: int| 0 <= i < allowed.len() ==> (#[trigger] allowed[i]).reached
        },
{
    let f = all_findings(ready, blocked, allowed);
    none_fails_iff_all_pass(f);
    if failures(f) == 0 {
        assert(passes(f[0]));
        assert forall|i: int| 0 <= i < blocked.len() implies !(#[trigger] blocked[i]).reached by {
            assert(f[1 + i] == blocked_findings(blocked)[i]);
            assert(passes(f[1 + i]));
        }
        assert forall|i: int| 0 <= i < allowed.len() implies (#[trigger] allowed[i]).reached by {
            let k = 1 + blocked.len() + i;
            assert(f[k] == allowed_findings(allowed)[i]);
            assert(passes(f[k]));
        }
    }
}

/// Violated expectations add up, each counted once, and none counted that holds.
pub proof fn failures_add_up(a: Seq<Finding>, b: Seq<Finding>, f: Finding)
    ensures
        failures(a + b) == failures(a) + failures(b),
        passes(f) ==> failures(seq![f]) == 0,
        !passes(f) ==> failures(seq![f]) == 1,
    decreases b.len(),
{
    reveal_with_fuel(failures, 2);
    assert(seq![f].drop_last() =~= Seq::<Finding>::empty());
    assert(seq![f].last() == f);
    if b.len() == 0 {
        assert(a + b =~= a);
    } else {
        failures_add_up(a, b.drop_last(), f);
        assert((a + b).drop_last() =~= a + b.drop_last());
        assert((a + b).last() == b.last());
    }
}

/// One host more adds one violated expectation exactly if it is a blocked host that was reached,
/// or an allowed host that was not.
pub proof fn one_more_host_may_fail(
    ready: bool,
    blocked: Seq<Probe>,
    allowed: Seq<Probe>,
    probe: Probe,
)
    ensures
        failures(all_findings(ready, Seq::empty(), Seq::empty())) == (if ready {
            0int
        } else {
            1int
        }),
        failures(all_findings(ready, blocked.push(probe), allowed)) == failures(
            all_findings(ready, blocked, allowed),
        ) + (if probe.reached {
            1int
        } else {
            0int
        }),
        failures(all_findings(ready, blocked, allowed.push(probe))) == failures(
            all_findings(ready, blocked, allowed),
        ) + (if probe.reached {
            0int
        } else {
            1int
        }),
{
    let first = seq![Finding::Ready { present: ready }];
    let b = blocked_findings(blocked);
    let a = allowed_findings(allowed);
    let more_b = Finding::Blocked { host: probe.host@, reached: probe.reached };
    let more_a = Finding::Allowed { host: probe.host@, reached: probe.reached };
    assert(all_findings(ready, Seq::empty(), Seq::empty()) =~= first);
    failures_add_up(first, b, first[0]);
    failures_add_up(first + b, a, first[0]);
    assert(blocked_findings(blocked.push(probe)) =~= b + seq![more_b]);
    assert(all_findings(ready, blocked.push(probe), allowed) =~= first + b + seq![more_b] + a);
    failures_add_up(first + b, seq![more_b], more_b);
    failures_add_up(first + b + seq![more_b], a, more_b);
    assert(allowed_findings(allowed.push(probe)) =~= a + seq![more_a]);
    assert(all_findings(ready, blocked, allowed.push(probe)) =~= first + b + a + seq![more_a]);
    failures_add_up(first + b + a, seq![more_a], more_a);
}

/// A text that starts with one of the two marks does not start with the other.
proof fn starts_with_one_mark(s: Seq<char>)
    ensures
        s.len() >= 4 && s[0] == 'O' && s[1] == 'K' && s[2] == ':' && s[3] == ' ' ==> begins(
            s,
            "OK: "@,
        ) && !begins(s, "FAIL: "@),
        s.len() >= 6 && s[0] == 'F' && s[1] == 'A' && s[2] == 'I' && s[3] == 'L' && s[4] == ':'
            && s[5] == ' ' ==> begins(s, "FAIL: "@) && !begins(s, "OK: "@),
{
    reveal_strlit("OK: ");
    reveal_strlit("FAIL: ");
    if s.len() >= 4 && s[0] == 'O' && s[1] == 'K' && s[2] == ':' && s[3] == ' ' {
        assert(s.take(4) =~= "OK: "@);
        if s.len() >= 6 {
            assert(s.take(6)[0] != "FAIL: "@[0]);
        }
    }
    if s.len() >= 6 && s[0] == 'F' && s[1] == 'A' && s[2] == 'I' && s[3] == 'L' && s[4] == ':'
        && s[5] == ' ' {
        assert(s.take(6) =~= "FAIL: "@);
        assert(s.take(4)[0] != "OK: "@[0]);
    }
}

/// What is logged of a check says first whether its expectation holds, and names its host.
pub proof fn message_says_what_was_found(host: Seq<char>, reached: bool, present: bool)
    ensures
        ({
            let blocked = message_of(Finding::Blocked { host, reached });
            let allowed = message_of(Finding::Allowed { host, reached });
            let ready = message_of(Finding::Ready { present });
            &&& begins(blocked, "OK: "@) == !reached
            &&& begins(blocked, "FAIL: "@) == reached
            &&& begins(allowed, "OK: "@) == reached
            &&& begins(allowed, "FAIL: "@) == !reached
            &&& begins(ready, "OK: "@) == present
            &&& begins(ready, "FAIL: "@) == !present
            &&& occurs(blocked, host)
            &&& occurs(allowed, host)
            &&& !present ==> occurs(ready, READY_PATH@)
        }),
{
    starts_with_one_mark(message_of(Finding::Blocked { host, reached }));
    starts_with_one_mark(message_of(Finding::Allowed { host, reached }));
    starts_with_one_mark(message_of(Finding::Ready { present }));
    reveal_strlit("OK: resolver readiness file present");
    reveal_strlit("FAIL: resolver readiness file ");
    reveal_strlit("FAIL: reached blocked host ");
    reveal_strlit("OK: blocked host ");
    reveal_strlit("OK: allowed host ");
    reveal_strlit("FAIL: could not reach allowed host ");
    let none = Seq::<char>::empty();
    occurs_in_itself(host);
    occurs_in_itself(READY_PATH@);
    occurs_in_part(
        "FAIL: resolver readiness file "@,
        READY_PATH@,
        " missing — daemon not up?"@,
        READY_PATH@,
    );
    occurs_in_part("FAIL: reached blocked host "@, host, " (should be denied)"@, host);
    occurs_in_part("OK: blocked host "@, host, " is unreachable as expected"@, host);
    occurs_in_part("OK: allowed host "@, host, " is reachable"@, host);
    occurs_in_part("FAIL: could not reach allowed host "@, host, none, host);
    assert("FAIL: could not reach allowed host "@ + host + none
        =~= "FAIL: could not reach allowed host "@ + host);
}

/// A probe of a host connects to that host over HTTPS, gives up after five seconds, and reads
/// nothing.
pub proof fn probe_connects_to_its_host(host: Seq<char>, other: Seq<char>)
    ensures
        ({
            let run = reach_run(host);
            &&& run.program == "curl"@
            &&& run.stdin is None
            &&& run.args.last() == "https://"@ + host
            &&& exists|i: int| #[trigger]
                begins_with_limit(run.args, i)
            &&& run == reach_run(other) ==> host == other
        }),
{
    assert(begins_with_limit(reach_run(host).args, 0));
    if reach_run(host) == reach_run(other) {
        let n = "https://"@.len() as int;
        assert(reach_run(host).args.last() == reach_run(other).args.last());
        assert(("https://"@ + host).skip(n) =~= host);
        assert(("https://"@ + other).skip(n) =~= other);
    }
}

/// The arguments from `i` on limit the time to connect to five seconds.
pub open spec fn begins_with_limit(args: Seq<Seq<char>>, i: int) -> bool {
    0 <= i && i + 1 < args.len() && args[i] == "--connect-timeout"@ && args[i + 1] == "5"@
}

} // verus!
