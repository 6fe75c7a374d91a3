//! Starting from the last known-good snapshot that was persisted, so that a
//! restarting gateway can route before its first registry poll completes.
use vstd::prelude::*;
use crate::health::{HealthConfig, HealthRecord, HealthState};
use crate::node::{Node, find_node, ids_unique};
use crate::routing::RoutingState;
use crate::snapshot::Snapshot;

verus! {

/// Where loading persisted state reports soft invariants that it found
/// broken: things that do not stop loading but should not happen.
pub trait CheckpointLoadingMetrics {
    fn observe_broken_soft_invariant(&self, msg: String);
}

/// The record a seeded node starts with: it was eligible when the snapshot
/// was published.
pub open spec fn seeded_record() -> HealthRecord {
    HealthRecord {
        state: HealthState::Healthy,
        consecutive_failures: 0,
        consecutive_successes: 0,
        last_probe_ms: 0,
        last_latency_ms: 0,
    }
}

/// Node `n` stands in route `k` of `seed` under its own subnet.
pub open spec fn listed_in(seed: Snapshot, k: int, n: Node) -> bool {
    &&& 0 <= k < seed.routes@.len()
    &&& seed.routes@[k].nodes@.contains(n)
    &&& n.subnet == seed.routes@[k].subnet
}

/// Node `n` stands in some route of `seed` under its own subnet.
pub open spec fn in_seed(seed: Snapshot, n: Node) -> bool {
    exists|k: int| listed_in(seed, k, n)
}

/// Routing state seeded from a persisted snapshot: every node it lists under
/// its own subnet is taken as registered and healthy, with registry version
/// 0 so that the first live registry update replaces it. A node listed twice,
/// or under a subnet other than its own, is a broken soft invariant: it is
/// reported to `metrics` and its extra listing skipped.
pub fn load_seed<M: CheckpointLoadingMetrics>(
    seed: &Snapshot,
    health_config: HealthConfig,
    metrics: &M,
) -> (r: RoutingState)
    ensures
        r.wf(),
        r.health_config == health_config,
        r.registry_version == 0,
        r.generation == seed.generation,
        r.fetch_errors == 0,
        forall|i: int|
            0 <= i < r.nodes@.len() ==> in_seed(*seed, #[trigger] r.nodes@[i]),
        forall|k: int, n: Node|
            listed_in(*seed, k, n) ==> exists|i: int|
                0 <= i < r.nodes@.len() && (#[trigger] r.nodes@[i]).id == n.id,
        forall|i: int| 0 <= i < r.health@.len() ==> #[trigger] r.health@[i] == seeded_record(),
{
    let mut nodes: Vec<Node> = Vec::new();
    let mut health: Vec<HealthRecord> = Vec::new();
    let mut k: usize = 0;
    while k < seed.routes.len()
        invariant
            k <= seed.routes@.len(),
            nodes@.len() == health@.len(),
            ids_unique(nodes@),
            forall|i: int| 0 <= i < nodes@.len() ==> in_seed(*seed, #[trigger] nodes@[i]),
            forall|kk: int, n: Node|
                0 <= kk < k && listed_in(*seed, kk, n) ==> exists|i: int|
                    0 <= i < nodes@.len() && (#[trigger] nodes@[i]).id == n.id,
            forall|i: int| 0 <= i < health@.len() ==> #[trigger] health@[i] == seeded_record(),
        decreases seed.routes@.len() - k,
    {
        let route = &seed.routes[k];
        let mut j: usize = 0;
        while j < route.nodes.len()
            invariant
                k < seed.routes@.len(),
                *route == seed.routes@[k as int],
                j <= route.nodes@.len(),
                nodes@.len() == health@.len(),
                ids_unique(nodes@),
                forall|i: int| 0 <= i < nodes@.len() ==> in_seed(*seed, #[trigger] nodes@[i]),
                forall|kk: int, n: Node|
                    0 <= kk < k && listed_in(*seed, kk, n) ==> exists|i: int|
                        0 <= i < nodes@.len() && (#[trigger] nodes@[i]).id == n.id,
                forall|jj: int|
                    0 <= jj < j && route.nodes@[jj].subnet == route.subnet ==> exists|i: int|
                        0 <= i < nodes@.len() && (#[trigger] nodes@[i]).id == route.nodes@[jj].id,
                forall|i: int| 0 <= i < health@.len() ==> #[trigger] health@[i] == seeded_record(),
            decreases route.nodes@.len() - j,
        {
            let n = route.nodes[j];
            proof {
                assert(route.nodes@.contains(n));
            }
            if n.subnet != route.subnet {
                metrics.observe_broken_soft_invariant("node listed under a subnet it does not belong to".to_owned());
            } else {
                match find_node(nodes.as_slice(), n.id) {
                    Some(_) => {
                        metrics.observe_broken_soft_invariant("node listed more than once".to_owned());
                    },
                    None => {
                        let ghost before = nodes@;
                        nodes.push(n);
                        health.push(
                            HealthRecord {
                                state: HealthState::Healthy,
                                consecutive_failures: 0,
                                consecutive_successes: 0,
                                last_probe_ms: 0,
                                last_latency_ms: 0,
                            },
                        );
                        proof {
                            assert(listed_in(*seed, k as int, n));
                            assert(in_seed(*seed, n));
                            assert forall|i: int| 0 <= i < nodes@.len() implies in_seed(*seed, #[trigger] nodes@[i]) by {
                                if i < before.len() {
                                    assert(nodes@[i] == before[i]);
                                }
                            }
                            assert forall|kk: int, m: Node|
                                0 <= kk < k && listed_in(*seed, kk, m) implies exists|i: int|
                                    0 <= i < nodes@.len() && (#[trigger] nodes@[i]).id == m.id by {
                                let i = choose|i: int| 0 <= i < before.len() && (#[trigger] before[i]).id == m.id;
                                assert(nodes@[i] == before[i]);
                            }
                            assert forall|jj: int|
                                0 <= jj < j && route.nodes@[jj].subnet == route.subnet implies exists|i: int|
                                    0 <= i < nodes@.len() && (#[trigger] nodes@[i]).id == route.nodes@[jj].id by {
                                let i = choose|i: int| 0 <= i < before.len() && (#[trigger] before[i]).id == route.nodes@[jj].id;
                                assert(nodes@[i] == before[i]);
                            }
                            assert(nodes@[before.len() as int].id == n.id);
                        }
                    },
                }
            }
            j += 1;
        }
        proof {
            assert forall|kk: int, n: Node|
                0 <= kk < k + 1 && listed_in(*seed, kk, n) implies exists|i: int|
                    0 <= i < nodes@.len() && (#[trigger] nodes@[i]).id == n.id by {
                if kk == k as int {
                    let jj = choose|jj: int| 0 <= jj < route.nodes@.len() && route.nodes@[jj] == n;
                }
            }
        }
        k += 1;
    }
    RoutingState {
        health_config,
        registry_version: 0,
        nodes,
        health,
        generation: seed.generation,
        fetch_errors: 0,
    }
}

} // verus!
