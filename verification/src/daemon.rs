//! The bootstrap of the daemon. The daemon owns it entirely, so that the ordering is race-free
//! without an external sequencer:
//!
//!   1. resolve the real upstream(s),
//!   2. bind the listener socket(s) — *before* any interception exists,
//!   3. on a cold start, fetch seeds and atomically apply default-drop + DNS interception,
//!   4. point resolv.conf at ourselves,
//!   5. signal readiness and serve.
//!
//! A warm restart (the `nat_output` chain is already in the kernel) skips step 3 so the dynamic
//! allow-sets populated by the previous run are preserved.

use vstd::prelude::*;

verus! {

/// A step of the bootstrap.
#[derive(Clone, Copy, Debug, PartialEq, Eq, Structural)]
pub enum Stage {
    /// Resolve the real upstream(s).
    Upstreams,
    /// Load the allow-list.
    Patterns,
    /// Build the forwarding resolver.
    Resolver,
    /// Bind the listener sockets.
    Bind,
    /// Ask whether interception is already active.
    Probe,
    /// Check that nftables is usable.
    Nftables,
    /// Detect the host networks.
    Networks,
    /// Read the seed lists to fetch.
    Lists,
    /// Fetch the seed lists.
    Seeds,
    /// Apply the ruleset.
    Ruleset,
    /// Check the sysctl that DNAT to loopback needs.
    Localnet,
    /// Point resolv.conf at ourselves.
    Repoint,
    /// Signal readiness.
    Ready,
    /// Serve.
    Serve,
    /// Give up.
    Failed,
}

/// What came of a step.
#[derive(Clone, Copy, Debug, PartialEq, Eq, Structural)]
pub enum Outcome {
    /// It succeeded.
    Succeeded,
    /// Interception is already active.
    Active,
    /// Interception is not active.
    Inactive,
    /// It failed.
    Failed,
}

/// The step that follows a step that succeeded.
pub open spec fn following(stage: Stage) -> Stage {
    match stage {
        Stage::Upstreams => Stage::Patterns,
        Stage::Patterns => Stage::Resolver,
        Stage::Resolver => Stage::Bind,
        Stage::Bind => Stage::Probe,
        Stage::Nftables => Stage::Networks,
        Stage::Networks => Stage::Lists,
        Stage::Lists => Stage::Seeds,
        Stage::Seeds => Stage::Ruleset,
        Stage::Ruleset => Stage::Localnet,
        Stage::Localnet => Stage::Repoint,
        Stage::Repoint => Stage::Ready,
        Stage::Ready => Stage::Serve,
        Stage::Probe | Stage::Serve | Stage::Failed => Stage::Failed,
    }
}

/// The step that follows. The probe alone answers whether interception is active.
pub open spec fn stage_after(stage: Stage, outcome: Outcome) -> Stage {
    match (stage, outcome) {
        (Stage::Probe, Outcome::Active) => Stage::Repoint,
        (Stage::Probe, Outcome::Inactive) => Stage::Nftables,
        (_, Outcome::Succeeded) => following(stage),
        _ => Stage::Failed,
    }
}

impl Stage {
    /// The first step.
    pub fn first() -> (r: Self)
        ensures
            r == Stage::Upstreams,
    {
        Stage::Upstreams
    }

    /// Decides which step follows.
    pub fn advance(self, outcome: Outcome) -> (r: Self)
        ensures
            r == stage_after(self, outcome),
    {
        match outcome {
            Outcome::Active => if self == Stage::Probe {
                Stage::Repoint
            } else {
                Stage::Failed
            },
            Outcome::Inactive => if self == Stage::Probe {
                Stage::Nftables
            } else {
                Stage::Failed
            },
            Outcome::Failed => Stage::Failed,
            Outcome::Succeeded => match self {
                Stage::Upstreams => Stage::Patterns,
                Stage::Patterns => Stage::Resolver,
                Stage::Resolver => Stage::Bind,
                Stage::Bind => Stage::Probe,
                Stage::Nftables => Stage::Networks,
                Stage::Networks => Stage::Lists,
                Stage::Lists => Stage::Seeds,
                Stage::Seeds => Stage::Ruleset,
                Stage::Ruleset => Stage::Localnet,
                Stage::Localnet => Stage::Repoint,
                Stage::Repoint => Stage::Ready,
                Stage::Ready => Stage::Serve,
                Stage::Probe | Stage::Serve | Stage::Failed => Stage::Failed,
            },
        }
    }
}

/// The step that a bootstrap has come to after these outcomes.
pub open spec fn stage_at(outcomes: Seq<Outcome>) -> Stage
    decreases outcomes.len(),
{
    if outcomes.len() == 0 {
        Stage::Upstreams
    } else {
        stage_after(stage_at(outcomes.drop_last()), outcomes.last())
    }
}

/// The step `k` of a bootstrap was `stage`.
pub open spec fn was_at(outcomes: Seq<Outcome>, k: int, stage: Stage) -> bool {
    0 <= k <= outcomes.len() && stage_at(outcomes.take(k)) == stage
}

/// A bootstrap that has come to a step has come to the step before it, which then succeeded.
proof fn came_from(outcomes: Seq<Outcome>)
    requires
        outcomes.len() > 0,
    ensures
        stage_at(outcomes) == stage_after(
            stage_at(outcomes.take(outcomes.len() - 1)),
            outcomes[outcomes.len() - 1],
        ),
{
    assert(outcomes.drop_last() == outcomes.take(outcomes.len() - 1));
}

/// Where a bootstrap stands says how far it has come, but for whether the start was warm.
pub open spec fn place(stage: Stage) -> int {
    match stage {
        Stage::Upstreams => 0,
        Stage::Patterns => 1,
        Stage::Resolver => 2,
        Stage::Bind => 3,
        Stage::Probe => 4,
        Stage::Nftables => 5,
        Stage::Networks => 6,
        Stage::Lists => 7,
        Stage::Seeds => 8,
        Stage::Ruleset => 9,
        Stage::Localnet => 10,
        Stage::Repoint => 11,
        Stage::Ready => 12,
        Stage::Serve => 13,
        Stage::Failed => 14,
    }
}

/// The steps only ever come in their order, so that none comes twice.
pub proof fn steps_come_in_order(stage: Stage, outcome: Outcome)
    requires
        stage != Stage::Failed,
    ensures
        place(stage_after(stage, outcome)) > place(stage),
{
}

/// Interception is never enabled before the resolver is listening, and no ruleset is applied
/// while one is live: where the ruleset is applied, the sockets were bound first, then the probe
/// found no interception, and the seeds were fetched last, while egress was open.
pub proof fn ruleset_comes_after_bind(outcomes: Seq<Outcome>)
    requires
        stage_at(outcomes) == Stage::Ruleset,
    ensures
        outcomes.len() == 9,
        was_at(outcomes, 3, Stage::Bind) && outcomes[3] == Outcome::Succeeded,
        was_at(outcomes, 4, Stage::Probe) && outcomes[4] == Outcome::Inactive,
        was_at(outcomes, 8, Stage::Seeds) && outcomes[8] == Outcome::Succeeded,
{
    unwound(outcomes);
}

/// The outcomes of a bootstrap that has come to a step of a cold start.
proof fn unwound(outcomes: Seq<Outcome>)
    requires
        place(stage_at(outcomes)) <= 10,
    ensures
        outcomes.len() == place(stage_at(outcomes)),
        forall|k: int|
            #![trigger outcomes.take(k)]
            0 <= k <= outcomes.len() ==> place(stage_at(outcomes.take(k))) == k,
        forall|k: int|
            0 <= k < outcomes.len() ==> #[trigger] outcomes[k] == (if k == 4 {
                Outcome::Inactive
            } else {
                Outcome::Succeeded
            }),
    decreases outcomes.len(),
{
    assert(outcomes.take(outcomes.len() as int) == outcomes);
    if outcomes.len() > 0 {
        let n = outcomes.len() - 1;
        let front = outcomes.drop_last();
        came_from(outcomes);
        assert(front == outcomes.take(n));
        unwound(front);
        assert forall|k: int|
            #![trigger outcomes.take(k)]
            0 <= k <= outcomes.len() implies place(stage_at(outcomes.take(k))) == k by {
            if k <= n {
                assert(outcomes.take(k) == front.take(k));
            }
        }
        assert forall|k: int| 0 <= k < outcomes.len() implies #[trigger] outcomes[k] == (if k
            == 4 {
            Outcome::Inactive
        } else {
            Outcome::Succeeded
        }) by {
            if k < n {
                assert(outcomes[k] == front[k]);
            }
        }
    }
}

/// A warm restart keeps the live ruleset: once the probe has found interception active, no
/// ruleset is applied.
pub proof fn warm_restart_keeps_the_ruleset(outcomes: Seq<Outcome>)
    requires
        outcomes.contains(Outcome::Active),
    ensures
        stage_at(outcomes) != Stage::Nftables,
        stage_at(outcomes) != Stage::Ruleset,
{
    if place(stage_at(outcomes)) <= 10 {
        unwound(outcomes);
        let k = choose|k: int| 0 <= k < outcomes.len() && outcomes[k] == Outcome::Active;
        assert(outcomes[k] == Outcome::Succeeded || outcomes[k] == Outcome::Inactive);
    }
}

/// Readiness is signalled last: a bootstrap serves only after it has bound, has taken over
/// resolv.conf and has signalled readiness, and either found interception active or has applied
/// the ruleset; and nothing failed.
pub proof fn serving_comes_last(outcomes: Seq<Outcome>)
    requires
        stage_at(outcomes) == Stage::Serve,
    ensures
        !outcomes.contains(Outcome::Failed),
        was_at(outcomes, 3, Stage::Bind),
        was_at(outcomes, outcomes.len() - 2, Stage::Repoint),
        was_at(outcomes, outcomes.len() - 1, Stage::Ready),
        outcomes.len() == 7 && outcomes[4] == Outcome::Active || outcomes.len() == 13
            && outcomes[4] == Outcome::Inactive && was_at(outcomes, 9, Stage::Ruleset),
{
    let n = outcomes.len() as int;
    came_from(outcomes);
    let ready = outcomes.take(n - 1);
    came_from(ready);
    let repoint = ready.take(n - 2);
    assert(repoint == outcomes.take(n - 2));
    came_from(repoint);
    let before = repoint.take(n - 3);
    assert(before == outcomes.take(n - 3));
    unwound(before);
    assert(outcomes.take(3) == before.take(3));
    assert(place(stage_at(before.take(3))) == 3);
    if n == 13 {
        assert(outcomes.take(9) == before.take(9));
        assert(place(stage_at(before.take(9))) == 9);
        assert(outcomes[4] == before[4]);
    } else {
        assert(outcomes[4] == repoint[4]);
    }
    assert forall|k: int| 0 <= k < n implies outcomes[k] != Outcome::Failed by {
        if k < n - 3 {
            assert(outcomes[k] == before[k]);
        } else if k == n - 3 {
            assert(outcomes[k] == repoint[k]);
        } else if k == n - 2 {
            assert(outcomes[k] == ready[k]);
        }
    }
}

/// The outcomes of a cold start on which nothing fails.
pub open spec fn cold_start() -> Seq<Outcome> {
    Seq::new(
        13,
        |k: int|
            if k == 4 {
                Outcome::Inactive
            } else {
                Outcome::Succeeded
            },
    )
}

/// The outcomes of a warm restart on which nothing fails.
pub open spec fn warm_restart() -> Seq<Outcome> {
    Seq::new(
        7,
        |k: int|
            if k == 4 {
                Outcome::Active
            } else {
                Outcome::Succeeded
            },
    )
}

/// The bootstrap goes on to `next` once step `k` has come out as it did.
proof fn goes_on(outcomes: Seq<Outcome>, k: int, next: Stage)
    requires
        0 <= k < outcomes.len(),
        next == stage_after(stage_at(outcomes.take(k)), outcomes[k]),
    ensures
        stage_at(outcomes.take(k + 1)) == next,
{
    let t = outcomes.take(k + 1);
    assert(t.drop_last() =~= outcomes.take(k));
    assert(t.last() == outcomes[k]);
}

/// A cold start on which nothing fails takes every step once, and comes to serve.
pub proof fn cold_start_takes_every_step()
    ensures
        was_at(cold_start(), 0, Stage::Upstreams),
        was_at(cold_start(), 1, Stage::Patterns),
        was_at(cold_start(), 2, Stage::Resolver),
        was_at(cold_start(), 3, Stage::Bind),
        was_at(cold_start(), 4, Stage::Probe),
        was_at(cold_start(), 5, Stage::Nftables),
        was_at(cold_start(), 6, Stage::Networks),
        was_at(cold_start(), 7, Stage::Lists),
        was_at(cold_start(), 8, Stage::Seeds),
        was_at(cold_start(), 9, Stage::Ruleset),
        was_at(cold_start(), 10, Stage::Localnet),
        was_at(cold_start(), 11, Stage::Repoint),
        was_at(cold_start(), 12, Stage::Ready),
        was_at(cold_start(), 13, Stage::Serve),
{
    let o = cold_start();
    assert(o.take(0) =~= Seq::<Outcome>::empty());
    goes_on(o, 0, Stage::Patterns);
    goes_on(o, 1, Stage::Resolver);
    goes_on(o, 2, Stage::Bind);
    goes_on(o, 3, Stage::Probe);
    goes_on(o, 4, Stage::Nftables);
    goes_on(o, 5, Stage::Networks);
    goes_on(o, 6, Stage::Lists);
    goes_on(o, 7, Stage::Seeds);
    goes_on(o, 8, Stage::Ruleset);
    goes_on(o, 9, Stage::Localnet);
    goes_on(o, 10, Stage::Repoint);
    goes_on(o, 11, Stage::Ready);
    goes_on(o, 12, Stage::Serve);
}

/// A warm restart on which nothing fails takes over resolv.conf right after the probe, and comes
/// to serve.
pub proof fn warm_restart_skips_the_ruleset()
    ensures
        was_at(warm_restart(), 0, Stage::Upstreams),
        was_at(warm_restart(), 1, Stage::Patterns),
        was_at(warm_restart(), 2, Stage::Resolver),
        was_at(warm_restart(), 3, Stage::Bind),
        was_at(warm_restart(), 4, Stage::Probe),
        was_at(warm_restart(), 5, Stage::Repoint),
        was_at(warm_restart(), 6, Stage::Ready),
        was_at(warm_restart(), 7, Stage::Serve),
{
    let o = warm_restart();
    assert(o.take(0) =~= Seq::<Outcome>::empty());
    goes_on(o, 0, Stage::Patterns);
    goes_on(o, 1, Stage::Resolver);
    goes_on(o, 2, Stage::Bind);
    goes_on(o, 3, Stage::Probe);
    goes_on(o, 4, Stage::Repoint);
    goes_on(o, 5, Stage::Ready);
    goes_on(o, 6, Stage::Serve);
}

/// A bootstrap on which a step fails has failed, whatever comes after.
pub proof fn failure_is_final(outcomes: Seq<Outcome>)
    requires
        outcomes.contains(Outcome::Failed),
    ensures
        stage_at(outcomes) == Stage::Failed,
    decreases outcomes.len(),
{
    let k = choose|k: int| 0 <= k < outcomes.len() && outcomes[k] == Outcome::Failed;
    let front = outcomes.drop_last();
    if k < front.len() {
        assert(front[k] == Outcome::Failed);
        failure_is_final(front);
    }
}

} // verus!
