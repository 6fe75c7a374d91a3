//! Dispatch decisions for one request: which node to try next, how long to
//! wait before trying it, and when to stop. The caller performs each attempt
//! (connection, identity check, request) and reports its outcome back.
use vstd::prelude::*;
use crate::node::{Node, NodeId};
use crate::health::HealthState;
use crate::routing::{RoutingState, lemma_snapshot_lists_only_eligible};
use crate::snapshot::{Snapshot, is_snapshot_of};

verus! {

/// Why one attempt against one node failed without ending the request.
#[derive(Clone, Copy, Debug, PartialEq, Eq, Structural)]
pub enum FailureReason {
    /// The node presented an identity other than its pinned one.
    IdentityMismatch,
    /// Timeout, refused connection, or a server-side error.
    Transient,
}

/// One failed attempt, kept for diagnostics.
#[derive(Clone, Copy, Debug, PartialEq, Eq, Structural)]
pub struct AttemptFailure {
    pub node: NodeId,
    pub reason: FailureReason,
}

/// Typed failures of the request path.
#[derive(Clone, Debug, PartialEq, Eq)]
pub enum DispatchError {
    /// The subnet has no eligible node; nothing was attempted.
    NoEligibleNodes,
    /// The node rejected the request itself; it is not retried.
    NonRetriable { node: NodeId },
    /// The attempt budget, the deadline or the candidates ran out.
    AllAttemptsFailed { failures: Vec<AttemptFailure> },
    /// Admission control turned the request away before dispatch.
    RateLimited,
}

/// What one attempt gave.
#[derive(Clone, Debug, PartialEq, Eq)]
pub enum AttemptOutcome {
    Success(Vec<u8>),
    IdentityMismatch,
    Transient,
    NonRetriable,
}

/// Retry policy.
#[derive(Clone, Copy, Debug, PartialEq, Eq, Structural)]
pub struct RetryConfig {
    /// Most attempts one request may make.
    pub attempt_budget: u32,
    /// Time a request may take, from its start, in milliseconds.
    pub deadline_ms: u64,
    /// Wait before the second attempt; it doubles for each further one.
    pub backoff_base_ms: u64,
    /// Longest wait between two attempts.
    pub backoff_cap_ms: u64,
}

/// What the caller does next for a request.
#[derive(Clone, Copy, Debug, PartialEq, Eq, Structural)]
pub enum Step {
    /// Wait `delay_ms`, then try `node`.
    Attempt { node: Node, delay_ms: u64 },
    /// Stop: the request ends in `AllAttemptsFailed`.
    GiveUp,
}

/// The state of one request's retry sequence. It is made for one request
/// and never shared.
pub struct RetryContext {
    /// The subnet's node list, fixed when the request started.
    pub candidates: Vec<Node>,
    /// The nodes selected so far, in order.
    pub tried: Vec<NodeId>,
    pub failures: Vec<AttemptFailure>,
    pub attempts_left: u32,
    /// The time after which no attempt starts.
    pub deadline_ms: u64,
    pub backoff_base_ms: u64,
    pub backoff_cap_ms: u64,
}

/// The wait before an attempt that follows `n` earlier ones: none before the
/// first, then the base doubled each time, never over the cap.
pub open spec fn backoff_delay(base: u64, cap: u64, n: nat) -> u64
    decreases n,
{
    if n == 0 {
        0
    } else if n == 1 {
        if base <= cap {
            base
        } else {
            cap
        }
    } else {
        let p = backoff_delay(base, cap, (n - 1) as nat);
        if 2 * p >= cap {
            cap
        } else {
            (2 * p) as u64
        }
    }
}

proof fn lemma_backoff_capped(base: u64, cap: u64, n: nat)
    ensures
        backoff_delay(base, cap, n) <= cap,
    decreases n,
{
    if n > 1 {
        lemma_backoff_capped(base, cap, (n - 1) as nat);
    }
}

/// The wait before an attempt that follows `n` earlier ones.
pub fn backoff(base: u64, cap: u64, n: usize) -> (r: u64)
    ensures
        r == backoff_delay(base, cap, n as nat),
        r <= cap,
{
    proof {
        lemma_backoff_capped(base, cap, n as nat);
    }
    if n == 0 {
        return 0;
    }
    let mut d: u64 = if base <= cap {
        base
    } else {
        cap
    };
    let mut k: usize = 1;
    while k < n
        invariant
            1 <= k <= n,
            d == backoff_delay(base, cap, k as nat),
        decreases n - k,
    {
        proof {
            lemma_backoff_capped(base, cap, k as nat);
        }
        d = if d >= cap - d {
            cap
        } else {
            2 * d
        };
        k += 1;
    }
    d
}

/// The first candidate from position `i` on that was not selected yet.
pub open spec fn first_untried_from(candidates: Seq<Node>, tried: Seq<NodeId>, i: int) -> Option<int>
    decreases candidates.len() - i,
{
    if i < 0 || i >= candidates.len() {
        None
    } else if !tried.contains(candidates[i].id) {
        Some(i)
    } else {
        first_untried_from(candidates, tried, i + 1)
    }
}

/// The first candidate not selected yet, if any.
pub open spec fn first_untried(candidates: Seq<Node>, tried: Seq<NodeId>) -> Option<int> {
    first_untried_from(candidates, tried, 0)
}

/// Searching from `i` finds an untried candidate at or after `i`, and finds
/// one whenever there is one at some `b >= i`.
proof fn lemma_first_untried_from(candidates: Seq<Node>, tried: Seq<NodeId>, i: int, b: int)
    requires
        0 <= i,
    ensures
        first_untried_from(candidates, tried, i) is Some ==> {
            let k = first_untried_from(candidates, tried, i)->Some_0;
            i <= k < candidates.len() && !tried.contains(candidates[k].id)
        },
        i <= b < candidates.len() && !tried.contains(candidates[b].id) ==> first_untried_from(
            candidates,
            tried,
            i,
        ) is Some,
    decreases candidates.len() - i,
{
    if i < candidates.len() && tried.contains(candidates[i].id) {
        lemma_first_untried_from(candidates, tried, i + 1, b);
    }
}

/// The snapshot offers no node for `subnet`: the subnet is unknown or its
/// list is empty.
pub open spec fn no_target(snapshot: Snapshot, subnet: u64) -> bool {
    forall|k: int|
        0 <= k < snapshot.routes@.len() && snapshot.routes@[k].subnet == subnet && (forall|j: int|
            0 <= j < k ==> snapshot.routes@[j].subnet != subnet) ==> snapshot.routes@[k].nodes@.len()
            == 0
}

impl RetryContext {
    /// No node is selected twice.
    pub open spec fn wf(&self) -> bool {
        self.tried@.no_duplicates()
    }

    /// Whether the next step is an attempt rather than giving up.
    pub open spec fn can_attempt(&self, now_ms: u64) -> bool {
        &&& self.attempts_left > 0
        &&& now_ms < self.deadline_ms
        &&& first_untried(self.candidates@, self.tried@) is Some
    }

    /// Opens the retry sequence of a request to `subnet`, reading the
    /// snapshot once. With no eligible node the request fails at once.
    pub fn start(snapshot: &Snapshot, subnet: u64, cfg: RetryConfig, now_ms: u64) -> (r: Result<
        RetryContext,
        DispatchError,
    >)
        ensures
            r is Err <==> no_target(*snapshot, subnet),
            r is Err ==> r == Err::<RetryContext, DispatchError>(DispatchError::NoEligibleNodes),
            r is Ok ==> {
                let c = r->Ok_0;
                &&& c.wf()
                &&& exists|k: int|
                    0 <= k < snapshot.routes@.len() && snapshot.routes@[k].subnet == subnet
                        && (forall|j: int| 0 <= j < k ==> snapshot.routes@[j].subnet != subnet)
                        && c.candidates@ == snapshot.routes@[k].nodes@
                &&& c.candidates@.len() > 0
                &&& c.tried@.len() == 0
                &&& c.failures@.len() == 0
                &&& c.attempts_left == cfg.attempt_budget
                &&& c.deadline_ms == if now_ms as int + cfg.deadline_ms as int > u64::MAX {
                    u64::MAX
                } else {
                    (now_ms + cfg.deadline_ms) as u64
                }
                &&& c.backoff_base_ms == cfg.backoff_base_ms
                &&& c.backoff_cap_ms == cfg.backoff_cap_ms
            },
    {
        match snapshot.nodes_for(subnet) {
            None => Err(DispatchError::NoEligibleNodes),
            Some(candidates) => {
                if candidates.len() == 0 {
                    return Err(DispatchError::NoEligibleNodes);
                }
                let deadline_ms = if now_ms > u64::MAX - cfg.deadline_ms {
                    u64::MAX
                } else {
                    now_ms + cfg.deadline_ms
                };
                let c = RetryContext {
                    candidates,
                    tried: Vec::new(),
                    failures: Vec::new(),
                    attempts_left: cfg.attempt_budget,
                    deadline_ms,
                    backoff_base_ms: cfg.backoff_base_ms,
                    backoff_cap_ms: cfg.backoff_cap_ms,
                };
                assert(c.tried@.no_duplicates());
                Ok(c)
            },
        }
    }

    fn contains_tried(&self, id: NodeId) -> (r: bool)
        ensures
            r <==> self.tried@.contains(id),
    {
        let mut i: usize = 0;
        while i < self.tried.len()
            invariant
                i <= self.tried@.len(),
                forall|j: int| 0 <= j < i ==> self.tried@[j] != id,
            decreases self.tried@.len() - i,
        {
            if self.tried[i] == id {
                return true;
            }
            i += 1;
        }
        false
    }

    /// Decides the next step at time `now_ms`: the first candidate not tried
    /// yet, after the backoff due, while budget and deadline last; else give
    /// up. A selected node is recorded as tried and never selected again.
    pub fn next_step(&mut self, now_ms: u64) -> (r: Step)
        requires
            old(self).wf(),
        ensures
            final(self).wf(),
            r is GiveUp <==> !old(self).can_attempt(now_ms),
            r is GiveUp ==> *final(self) == *old(self),
            r is Attempt ==> {
                let i = first_untried(old(self).candidates@, old(self).tried@)->Some_0;
                &&& r->node == old(self).candidates@[i]
                &&& !old(self).tried@.contains(r->node.id)
                &&& r->delay_ms == backoff_delay(
                    old(self).backoff_base_ms,
                    old(self).backoff_cap_ms,
                    old(self).tried@.len(),
                )
                &&& final(self).tried@ == old(self).tried@.push(r->node.id)
                &&& final(self).attempts_left == old(self).attempts_left - 1
                &&& final(self).candidates@ == old(self).candidates@
                &&& final(self).failures@ == old(self).failures@
                &&& final(self).deadline_ms == old(self).deadline_ms
                &&& final(self).backoff_base_ms == old(self).backoff_base_ms
                &&& final(self).backoff_cap_ms == old(self).backoff_cap_ms
            },
    {
        if self.attempts_left == 0 || now_ms >= self.deadline_ms {
            return Step::GiveUp;
        }
        let mut i: usize = 0;
        while i < self.candidates.len()
            invariant
                *self == *old(self),
                self.wf(),
                self.attempts_left > 0,
                now_ms < self.deadline_ms,
                i <= self.candidates@.len(),
                first_untried(self.candidates@, self.tried@) == first_untried_from(
                    self.candidates@,
                    self.tried@,
                    i as int,
                ),
            decreases self.candidates@.len() - i,
        {
            let n = self.candidates[i];
            if !self.contains_tried(n.id) {
                let delay_ms = backoff(self.backoff_base_ms, self.backoff_cap_ms, self.tried.len());
                self.tried.push(n.id);
                self.attempts_left = self.attempts_left - 1;
                return Step::Attempt { node: n, delay_ms };
            }
            i += 1;
        }
        Step::GiveUp
    }

    /// Takes in the outcome of the attempt against `node`. A success or a
    /// non-retriable failure ends the request; a transient failure or an
    /// identity mismatch is recorded and the sequence goes on.
    pub fn record_outcome(&mut self, node: NodeId, outcome: AttemptOutcome) -> (r: Option<
        Result<Vec<u8>, DispatchError>,
    >)
        requires
            old(self).wf(),
        ensures
            final(self).wf(),
            final(self).candidates@ == old(self).candidates@,
            final(self).tried@ == old(self).tried@,
            final(self).attempts_left == old(self).attempts_left,
            final(self).deadline_ms == old(self).deadline_ms,
            final(self).backoff_base_ms == old(self).backoff_base_ms,
            final(self).backoff_cap_ms == old(self).backoff_cap_ms,
            match outcome {
                AttemptOutcome::Success(body) => r == Some(Ok::<Vec<u8>, DispatchError>(body))
                    && final(self).failures@ == old(self).failures@,
                AttemptOutcome::NonRetriable => r == Some(
                    Err::<Vec<u8>, DispatchError>(DispatchError::NonRetriable { node }),
                ) && final(self).failures@ == old(self).failures@,
                AttemptOutcome::IdentityMismatch => r is None && final(self).failures@
                    == old(self).failures@.push(
                    AttemptFailure { node, reason: FailureReason::IdentityMismatch },
                ),
                AttemptOutcome::Transient => r is None && final(self).failures@
                    == old(self).failures@.push(
                    AttemptFailure { node, reason: FailureReason::Transient },
                ),
            },
    {
        match outcome {
            AttemptOutcome::Success(body) => Some(Ok(body)),
            AttemptOutcome::NonRetriable => Some(Err(DispatchError::NonRetriable { node })),
            AttemptOutcome::IdentityMismatch => {
                self.failures.push(AttemptFailure { node, reason: FailureReason::IdentityMismatch });
                None
            },
            AttemptOutcome::Transient => {
                self.failures.push(AttemptFailure { node, reason: FailureReason::Transient });
                None
            },
        }
    }

    /// Ends a request that gave up: the failure carries every failed attempt.
    pub fn give_up(self) -> (r: DispatchError)
        ensures
            r == (DispatchError::AllAttemptsFailed { failures: self.failures }),
    {
        DispatchError::AllAttemptsFailed { failures: self.failures }
    }
}

/// When no registered node of `subnet` is healthy, the published snapshot
/// offers no target for it, so a request to it fails with `NoEligibleNodes`
/// before any attempt is made.
pub proof fn lemma_unhealthy_subnet_fails_fast(st: RoutingState, snap: Snapshot, g: u64, subnet: u64)
    requires
        st.wf(),
        is_snapshot_of(snap, st.nodes@, st.health@, g),
        forall|i: int|
            0 <= i < st.nodes@.len() && (#[trigger] st.nodes@[i]).subnet == subnet ==> st.health@[i].state
                != HealthState::Healthy,
    ensures
        no_target(snap, subnet),
{
    assert forall|k: int|
        0 <= k < snap.routes@.len() && snap.routes@[k].subnet == subnet implies snap.routes@[k].nodes@.len()
        == 0 by {
        if snap.routes@[k].nodes@.len() > 0 {
            let n = snap.routes@[k].nodes@[0];
            assert(snap.routes@[k].nodes@.contains(n));
            lemma_snapshot_lists_only_eligible(st, snap, g, k, n);
            let i = choose|i: int|
                0 <= i < st.nodes@.len() && st.nodes@[i] == n && st.health@[i].state
                    == HealthState::Healthy;
            assert(st.nodes@[i].subnet == subnet);
        }
    }
}

/// An identity mismatch at node `a` blocks only `a`: while budget and
/// deadline last, and another candidate has not been tried, the request's
/// next step is an attempt against a node other than `a`.
pub proof fn lemma_mismatch_does_not_block_others(
    before: RetryContext,
    after: RetryContext,
    a: NodeId,
    b: Node,
    now_ms: u64,
)
    requires
        before.wf(),
        before.tried@.contains(a),
        after.candidates@ == before.candidates@,
        after.tried@ == before.tried@,
        after.attempts_left == before.attempts_left,
        after.deadline_ms == before.deadline_ms,
        after.failures@ == before.failures@.push(
            AttemptFailure { node: a, reason: FailureReason::IdentityMismatch },
        ),
        before.candidates@.contains(b),
        !before.tried@.contains(b.id),
        before.attempts_left > 0,
        now_ms < before.deadline_ms,
    ensures
        after.can_attempt(now_ms),
        after.candidates@[first_untried(after.candidates@, after.tried@)->Some_0].id != a,
{
    let i = choose|i: int| 0 <= i < before.candidates@.len() && before.candidates@[i] == b;
    lemma_first_untried_from(after.candidates@, after.tried@, 0, i);
}

} // verus!
