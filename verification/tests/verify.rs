use castellan::verify::{can_reach, checks, run, Probe};

fn probe(host: &str, reached: bool) -> Probe {
    Probe { host: host.to_string(), reached }
}

#[test]
fn a_working_firewall_passes() {
    let blocked = vec![probe("example.com", false)];
    let allowed = vec![probe("api.github.com", true)];
    assert_eq!(run(true, &blocked, &allowed), Ok(()));
    assert_eq!(run(true, &vec![], &vec![]), Ok(()));
}

#[test]
fn violated_expectations_are_counted() {
    let blocked = vec![probe("a", true), probe("b", false)];
    let allowed = vec![probe("c", false), probe("d", true)];
    assert_eq!(run(true, &blocked, &allowed), Err(2));
    assert_eq!(run(false, &blocked, &allowed), Err(3));
    assert_eq!(run(false, &vec![], &vec![]), Err(1));
}

#[test]
fn checks_say_what_they_found() {
    let blocked = vec![probe("a", true), probe("b", false)];
    let allowed = vec![probe("c", false), probe("d", true)];
    let list = checks(false, &blocked, &allowed);
    let passed: Vec<bool> = list.iter().map(|c| c.passed()).collect();
    assert_eq!(passed, [false, false, true, false, true]);
    let messages: Vec<String> = list.iter().map(|c| c.message()).collect();
    assert_eq!(
        messages,
        [
            "FAIL: resolver readiness file /run/castellan/ready missing — daemon not up?",
            "FAIL: reached blocked host a (should be denied)",
            "OK: blocked host b is unreachable as expected",
            "FAIL: could not reach allowed host c",
            "OK: allowed host d is reachable",
        ]
    );
    let list = checks(true, &vec![], &vec![]);
    assert_eq!(list[0].message(), "OK: resolver readiness file present");
}

#[test]
fn hosts_are_probed_over_https() {
    let r = can_reach("example.com");
    assert_eq!(r.program, "curl");
    assert_eq!(
        r.args,
        ["--connect-timeout", "5", "-sS", "-o", "/dev/null", "https://example.com"]
    );
    assert_eq!(r.stdin, None);
}
