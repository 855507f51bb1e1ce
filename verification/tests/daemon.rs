use castellan::daemon::{Outcome, Stage};

fn walk(outcomes: &[Outcome]) -> Vec<Stage> {
    let mut stage = Stage::first();
    let mut seen = vec![stage];
    for outcome in outcomes {
        stage = stage.advance(*outcome);
        seen.push(stage);
    }
    seen
}

const OK: Outcome = Outcome::Succeeded;

#[test]
fn a_cold_start_applies_the_ruleset_after_binding() {
    let seen = walk(&[OK, OK, OK, OK, Outcome::Inactive, OK, OK, OK, OK, OK, OK, OK, OK]);
    assert_eq!(
        seen,
        [
            Stage::Upstreams,
            Stage::Patterns,
            Stage::Resolver,
            Stage::Bind,
            Stage::Probe,
            Stage::Nftables,
            Stage::Networks,
            Stage::Lists,
            Stage::Seeds,
            Stage::Ruleset,
            Stage::Localnet,
            Stage::Repoint,
            Stage::Ready,
            Stage::Serve,
        ]
    );
}

#[test]
fn a_warm_restart_keeps_the_ruleset() {
    let seen = walk(&[OK, OK, OK, OK, Outcome::Active, OK, OK]);
    assert_eq!(
        seen,
        [
            Stage::Upstreams,
            Stage::Patterns,
            Stage::Resolver,
            Stage::Bind,
            Stage::Probe,
            Stage::Repoint,
            Stage::Ready,
            Stage::Serve,
        ]
    );
}

#[test]
fn a_failure_ends_the_bootstrap() {
    assert_eq!(walk(&[OK, Outcome::Failed, OK]), [
        Stage::Upstreams,
        Stage::Patterns,
        Stage::Failed,
        Stage::Failed,
    ]);
    assert_eq!(Stage::Probe.advance(OK), Stage::Failed);
    assert_eq!(Stage::Bind.advance(Outcome::Active), Stage::Failed);
    assert_eq!(Stage::Bind.advance(Outcome::Inactive), Stage::Failed);
}
