//! Per-node health, driven only by active probes, with hysteresis: a node
//! turns unhealthy after `fail_threshold` consecutive failed probes and
//! healthy again after `success_threshold` consecutive successful ones.
use vstd::prelude::*;

verus! {

/// Liveness classification of one node.
#[derive(Clone, Copy, Debug, PartialEq, Eq, Structural)]
pub enum HealthState {
    /// Never probed successfully, and not yet failed often enough.
    Unknown,
    Healthy,
    Unhealthy,
}

/// What one liveness probe gave: an answer of the expected shape within the
/// probe timeout, or anything else (a timeout, a refused connection, a bad
/// answer).
#[derive(Clone, Copy, Debug, PartialEq, Eq, Structural)]
pub enum ProbeOutcome {
    Success { latency_ms: u64 },
    Failure,
}

/// Hysteresis thresholds.
#[derive(Clone, Copy, Debug, PartialEq, Eq, Structural)]
pub struct HealthConfig {
    pub fail_threshold: u32,
    pub success_threshold: u32,
}

impl HealthConfig {
    /// Both thresholds count at least one probe.
    pub open spec fn wf(self) -> bool {
        self.fail_threshold >= 1 && self.success_threshold >= 1
    }
}

/// The rolling health of one node.
#[derive(Clone, Copy, Debug, PartialEq, Eq, Structural)]
pub struct HealthRecord {
    pub state: HealthState,
    pub consecutive_failures: u32,
    pub consecutive_successes: u32,
    pub last_probe_ms: u64,
    pub last_latency_ms: u64,
}

/// One more, stopping at the largest `u32`.
pub open spec fn bump(n: u32) -> u32 {
    if n == u32::MAX {
        n
    } else {
        (n + 1) as u32
    }
}

/// The record after one probe that ended at `now_ms`.
pub open spec fn after_probe(
    r: HealthRecord,
    cfg: HealthConfig,
    outcome: ProbeOutcome,
    now_ms: u64,
) -> HealthRecord {
    match outcome {
        ProbeOutcome::Success { latency_ms } => {
            let cs = bump(r.consecutive_successes);
            HealthRecord {
                state: match r.state {
                    HealthState::Unhealthy => if cs >= cfg.success_threshold {
                        HealthState::Healthy
                    } else {
                        HealthState::Unhealthy
                    },
                    _ => HealthState::Healthy,
                },
                consecutive_failures: 0,
                consecutive_successes: cs,
                last_probe_ms: now_ms,
                last_latency_ms: latency_ms,
            }
        },
        ProbeOutcome::Failure => {
            let cf = bump(r.consecutive_failures);
            HealthRecord {
                state: if cf >= cfg.fail_threshold {
                    HealthState::Unhealthy
                } else {
                    r.state
                },
                consecutive_failures: cf,
                consecutive_successes: 0,
                last_probe_ms: now_ms,
                last_latency_ms: r.last_latency_ms,
            }
        },
    }
}

/// The record after `k` probes with the same outcome.
pub open spec fn after_probes(
    r: HealthRecord,
    cfg: HealthConfig,
    outcome: ProbeOutcome,
    k: nat,
    now_ms: u64,
) -> HealthRecord
    decreases k,
{
    if k == 0 {
        r
    } else {
        after_probe(after_probes(r, cfg, outcome, (k - 1) as nat, now_ms), cfg, outcome, now_ms)
    }
}

fn bump_exec(n: u32) -> (r: u32)
    ensures
        r == bump(n),
{
    if n == u32::MAX {
        n
    } else {
        n + 1
    }
}

impl HealthRecord {
    /// The record of a node that was never probed.
    pub fn new() -> (r: HealthRecord)
        ensures
            r.state == HealthState::Unknown,
            r.consecutive_failures == 0,
            r.consecutive_successes == 0,
            r.last_probe_ms == 0,
            r.last_latency_ms == 0,
    {
        HealthRecord {
            state: HealthState::Unknown,
            consecutive_failures: 0,
            consecutive_successes: 0,
            last_probe_ms: 0,
            last_latency_ms: 0,
        }
    }

    /// The record after a probe with `outcome` finished at `now_ms`.
    pub fn observe(&self, cfg: HealthConfig, outcome: ProbeOutcome, now_ms: u64) -> (r:
        HealthRecord)
        ensures
            r == after_probe(*self, cfg, outcome, now_ms),
    {
        match outcome {
            ProbeOutcome::Success { latency_ms } => {
                let cs = bump_exec(self.consecutive_successes);
                let state = match self.state {
                    HealthState::Unhealthy => if cs >= cfg.success_threshold {
                        HealthState::Healthy
                    } else {
                        HealthState::Unhealthy
                    },
                    _ => HealthState::Healthy,
                };
                HealthRecord {
                    state,
                    consecutive_failures: 0,
                    consecutive_successes: cs,
                    last_probe_ms: now_ms,
                    last_latency_ms: latency_ms,
                }
            },
            ProbeOutcome::Failure => {
                let cf = bump_exec(self.consecutive_failures);
                let state = if cf >= cfg.fail_threshold {
                    HealthState::Unhealthy
                } else {
                    self.state
                };
                HealthRecord {
                    state,
                    consecutive_failures: cf,
                    consecutive_successes: 0,
                    last_probe_ms: now_ms,
                    last_latency_ms: self.last_latency_ms,
                }
            },
        }
    }

    /// Whether the node may receive traffic.
    pub fn is_healthy(&self) -> (r: bool)
        ensures
            r <==> self.state == HealthState::Healthy,
    {
        match self.state {
            HealthState::Healthy => true,
            _ => false,
        }
    }
}

proof fn lemma_failure_run(r: HealthRecord, cfg: HealthConfig, k: nat, now_ms: u64)
    requires
        1 <= k <= u32::MAX,
    ensures
        after_probes(r, cfg, ProbeOutcome::Failure, k, now_ms).consecutive_failures >= k,
        after_probes(r, cfg, ProbeOutcome::Failure, k, now_ms).consecutive_failures
            >= cfg.fail_threshold ==> after_probes(r, cfg, ProbeOutcome::Failure, k, now_ms).state
            == HealthState::Unhealthy,
    decreases k,
{
    if k > 1 {
        lemma_failure_run(r, cfg, (k - 1) as nat, now_ms);
    }
}

proof fn lemma_success_run(r: HealthRecord, cfg: HealthConfig, latency_ms: u64, k: nat, now_ms: u64)
    requires
        1 <= k <= u32::MAX,
    ensures
        ({
            let s = after_probes(r, cfg, ProbeOutcome::Success { latency_ms }, k, now_ms);
            &&& s.consecutive_successes >= k
            &&& s.state == HealthState::Healthy || (s.state == HealthState::Unhealthy
                && s.consecutive_successes < cfg.success_threshold)
        }),
    decreases k,
{
    if k > 1 {
        lemma_success_run(r, cfg, latency_ms, (k - 1) as nat, now_ms);
    }
}

/// Whatever a node's record was, `fail_threshold` consecutive failed probes
/// leave it unhealthy.
pub proof fn lemma_fail_threshold_marks_unhealthy(r: HealthRecord, cfg: HealthConfig, now_ms: u64)
    requires
        cfg.wf(),
    ensures
        after_probes(r, cfg, ProbeOutcome::Failure, cfg.fail_threshold as nat, now_ms).state
            == HealthState::Unhealthy,
{
    lemma_failure_run(r, cfg, cfg.fail_threshold as nat, now_ms);
}

/// Whatever a node's record was, `success_threshold` consecutive successful
/// probes leave it healthy.
pub proof fn lemma_success_threshold_marks_healthy(
    r: HealthRecord,
    cfg: HealthConfig,
    latency_ms: u64,
    now_ms: u64,
)
    requires
        cfg.wf(),
    ensures
        after_probes(
            r,
            cfg,
            ProbeOutcome::Success { latency_ms },
            cfg.success_threshold as nat,
            now_ms,
        ).state == HealthState::Healthy,
{
    lemma_success_run(r, cfg, latency_ms, cfg.success_threshold as nat, now_ms);
}

} // verus!
